use atopile::connection::ConnectionEndpoint;
use atopile::design::Design;
use atopile::field::{FieldKind, FieldPath};
use atopile::module::ModuleKind;
use atopile::netlist_builder::NetlistBuilder;
use atopile::bom::{escape_csv, split_designator, Bom, BomExporter, BomFormat, BomLine};
use atopile::kicad::{escape_string, KicadNetlist, KicadNetlistExporter};
use atopile::kicad_library::{ComponentType, FootprintRef, LibraryMapper, Package, SymbolRef};
use atopile::natord::natord_cmp;
use atopile::netlist::{derive_net_name, Net, NetNode, Netlist, NetlistComponent};
use atopile::schematic::{default_layers, escape_sexpr, find_pin_net, get_lib_id_for_component, pad_set, PadSet};
use std::cmp::Ordering;

#[test]
fn test_netlist_component() {
    let comp = NetlistComponent::new("R1", "10k")
        .with_footprint("Resistor_SMD:R_0402_1005Metric")
        .with_property("tolerance", "1%");

    assert_eq!(comp.reference, "R1");
    assert_eq!(comp.value, "10k");
    assert_eq!(comp.footprint, Some("Resistor_SMD:R_0402_1005Metric".to_string()));
    assert_eq!(comp.properties.get("tolerance"), Some(&"1%".to_string()));
}

#[test]
fn test_property_replaced_in_place() {
    let comp = NetlistComponent::new("R1", "10k")
        .with_property("a", "1")
        .with_property("b", "2")
        .with_property("a", "3");
    assert_eq!(comp.properties.len(), 2);
    assert_eq!(comp.properties.key_at(0), "a");
    assert_eq!(comp.properties.value_at(0), "3");
    assert_eq!(comp.properties.get("b"), Some(&"2".to_string()));
    assert_eq!(comp.properties.get("c"), None);
}

#[test]
fn test_net() {
    let net = Net::new("VCC").with_node("U1", "VDD").with_node("C1", "1").with_node("R1", "1");
    assert_eq!(net.name, "VCC");
    assert_eq!(net.nodes.len(), 3);
}

#[test]
fn test_netlist() {
    let mut netlist = Netlist::new().with_title("Test Design").with_tool("ato-export");

    netlist.add_component(NetlistComponent::new("R1", "10k"));
    netlist.add_component(NetlistComponent::new("C1", "100nF"));

    let mut net = Net::new("Net1");
    net.add_node(NetNode::new("R1", "1"));
    net.add_node(NetNode::new("C1", "1"));
    netlist.add_net(net);

    assert_eq!(netlist.component_count(), 2);
    assert_eq!(netlist.net_count(), 1);
    assert!(netlist.get_component("R1").is_some());
    assert!(netlist.get_net("Net1").is_some());
}

#[test]
fn test_netlist_components() {
    let mut netlist = Netlist::new();

    netlist.add_component(
        NetlistComponent::new("R1", "10k")
            .with_footprint("Resistor_SMD:R_0402")
            .with_property("tolerance", "1%"),
    );

    netlist.add_component(NetlistComponent::new("C1", "100nF").with_footprint("Capacitor_SMD:C_0402"));

    assert_eq!(netlist.component_count(), 2);

    let r1 = netlist.get_component("R1").unwrap();
    assert_eq!(r1.value, "10k");
    assert_eq!(r1.footprint.as_deref(), Some("Resistor_SMD:R_0402"));
}

#[test]
fn test_natord_cmp() {
    assert_eq!(natord_cmp("R1", "R2"), Ordering::Less);
    assert_eq!(natord_cmp("R2", "R10"), Ordering::Less);
    assert_eq!(natord_cmp("R10", "R2"), Ordering::Greater);
    assert_eq!(natord_cmp("C1", "R1"), Ordering::Less);
    assert_eq!(natord_cmp("R1", "R1"), Ordering::Equal);
    assert_eq!(natord_cmp("SW1", "U1"), Ordering::Less);
}

#[test]
fn test_natord_leading_zeros_and_long_numbers() {
    assert_eq!(natord_cmp("R01", "R1"), Ordering::Equal);
    assert_eq!(natord_cmp("R", "R1"), Ordering::Less);
    assert_eq!(natord_cmp("X123456789012345678901234567890", "X99"), Ordering::Greater);
    assert_eq!(natord_cmp("a9b", "a10a"), Ordering::Less);
    assert_eq!(natord_cmp("1", "a"), Ordering::Less);
}

#[test]
fn test_derive_net_name() {
    assert_eq!(derive_net_name(&["power_3v3.hv".to_string()]), "power_3v3_hv");
    assert_eq!(derive_net_name(&["r1.p2".to_string(), "r2.p1".to_string()]), "r1_p2");
    assert_eq!(derive_net_name(&[]), "Net");
}

#[test]
fn test_escape_string() {
    assert_eq!(escape_string("hello"), "hello");
    assert_eq!(escape_string("hello\"world"), "hello\\\"world");
    assert_eq!(escape_string("line1\nline2"), "line1\\nline2");
    assert_eq!(escape_string("path\\to\\file"), "path\\\\to\\\\file");
}

#[test]
fn test_escape_string_carriage_return() {
    assert_eq!(escape_string("a\rb"), "a\\rb");
}

fn kicad_test_netlist() -> Netlist {
    let mut netlist = Netlist::new().with_title("Test Design").with_tool("ato-export");
    netlist.metadata.date = Some("2024-01-01".to_string());
    netlist.add_component(NetlistComponent::new("R1", "10k").with_footprint("Resistor_SMD:R_0402"));
    netlist.add_component(NetlistComponent::new("C1", "100nF").with_footprint("Capacitor_SMD:C_0402"));
    netlist.add_component(NetlistComponent::new("U1", "ATmega328P").with_footprint("Package_QFP:TQFP-32"));
    netlist.add_net(Net::new("VCC").with_node("U1", "VCC").with_node("C1", "1"));
    netlist.add_net(Net::new("GND").with_node("U1", "GND").with_node("C1", "2").with_node("R1", "1"));
    netlist.add_net(Net::new("Net1").with_node("U1", "PA0").with_node("R1", "2"));
    netlist
}

#[test]
fn test_kicad_exporter() {
    let netlist = kicad_test_netlist();
    let exporter = KicadNetlistExporter::new(&netlist);
    let output = exporter.export_to_string().unwrap();
    assert!(output.contains("(export (version \"E\")"));
    assert!(output.contains("(components"));
    assert!(output.contains("(comp (ref \"R1\")"));
    assert!(output.contains("(value \"10k\")"));
    assert!(output.contains("(nets"));
    assert!(output.contains("(net (code 1) (name \"VCC\")"));
    assert!(output.contains("(node (ref \"U1\") (pin \"VCC\")"));
    assert!(output.contains("(tstamps 3)"));
    assert!(output.contains("(date \"2024-01-01\")"));
}

#[test]
fn test_kicad_exporter_exact_small() {
    let mut netlist = Netlist::new();
    netlist.add_component(NetlistComponent::new("R1", "1\"k").with_property("lcsc", "C1"));
    let out = KicadNetlistExporter::new(&netlist).export_to_string().unwrap();
    let expected = "(export (version \"E\")\n  (design\n  )\n  (components\n    (comp (ref \"R1\")\n      (value \"1\\\"k\")\n      (fields\n        (field (name \"lcsc\") \"C1\")\n      )\n      (tstamps 1)\n    )\n  )\n  (libparts)\n  (libraries)\n  (nets\n  )\n)\n";
    assert_eq!(out, expected);
}

#[test]
fn test_kicad_netlist_from_netlist() {
    let netlist = kicad_test_netlist();
    let kicad = KicadNetlist::from_netlist(&netlist);
    assert_eq!(kicad.version, "E");
    assert_eq!(kicad.components.len(), 3);
    assert_eq!(kicad.nets.len(), 3);
    assert_eq!(kicad.components[0].ref_, "R1");
    assert_eq!(kicad.components[0].value, "10k");
    assert_eq!(kicad.components[2].tstamp, "3");
    assert_eq!(kicad.nets[0].name, "VCC");
    assert_eq!(kicad.nets[0].nodes.len(), 2);
    assert_eq!(kicad.nets[2].code, 3);
}

fn bom_test_netlist() -> Netlist {
    let mut netlist = Netlist::new();
    netlist.add_component(
        NetlistComponent::new("R1", "10k")
            .with_footprint("Resistor_SMD:R_0402")
            .with_property("lcsc", "C25744")
            .with_property("manufacturer", "YAGEO"),
    );
    netlist.add_component(
        NetlistComponent::new("R2", "10k")
            .with_footprint("Resistor_SMD:R_0402")
            .with_property("lcsc", "C25744")
            .with_property("manufacturer", "YAGEO"),
    );
    netlist.add_component(
        NetlistComponent::new("R3", "4.7k")
            .with_footprint("Resistor_SMD:R_0402")
            .with_property("lcsc", "C25900")
            .with_property("manufacturer", "YAGEO"),
    );
    netlist.add_component(
        NetlistComponent::new("C1", "100nF")
            .with_footprint("Capacitor_SMD:C_0402")
            .with_property("lcsc", "C1525")
            .with_property("manufacturer", "Samsung"),
    );
    netlist.add_component(
        NetlistComponent::new("U1", "ATmega328P")
            .with_footprint("Package_QFP:TQFP-32")
            .with_property("lcsc", "C14877")
            .with_property("manufacturer", "Microchip")
            .with_property("part_number", "ATMEGA328P-AU"),
    );
    netlist
}

#[test]
fn test_bom_from_netlist() {
    let bom = Bom::from_netlist(&bom_test_netlist());
    assert_eq!(bom.lines.len(), 5);
    assert_eq!(bom.total_components(), 5);
}

#[test]
fn test_bom_from_netlist_grouped() {
    let bom = Bom::from_netlist_grouped(&bom_test_netlist());
    assert_eq!(bom.lines.len(), 4);
    assert_eq!(bom.total_components(), 5);
    let r10k = bom.lines.iter().find(|l| l.value == "10k").unwrap();
    assert_eq!(r10k.quantity, 2);
    assert!(r10k.designator.contains("R1"));
    assert!(r10k.designator.contains("R2"));
    let order: Vec<&str> = bom.lines.iter().map(|l| l.designator.as_str()).collect();
    assert_eq!(order, vec!["C1", "R3", "R1, R2", "U1"]);
}

#[test]
fn test_bom_export_jlcpcb() {
    let bom = Bom::from_netlist_grouped(&bom_test_netlist());
    let output = BomExporter::new(&bom).export_to_string(BomFormat::Jlcpcb).unwrap();
    assert!(output.starts_with("Comment,Designator,Footprint,LCSC Part #"));
    assert!(output.contains("10k"));
    assert!(output.contains("C25744"));
    assert!(output.contains("Resistor_SMD:R_0402"));
    assert!(output.contains("10k,\"R1, R2\",Resistor_SMD:R_0402,C25744\n"));
}

#[test]
fn test_bom_export_generic_csv() {
    let bom = Bom::from_netlist(&bom_test_netlist());
    let output = BomExporter::new(&bom).export_to_string(BomFormat::GenericCsv).unwrap();
    assert!(output.starts_with("Reference,Value,Footprint,Quantity,Part Number,Manufacturer,LCSC"));
    assert!(output.contains("R1"));
    assert!(output.contains("10k"));
    assert!(output.contains("YAGEO"));
    assert!(output.contains("ATmega328P"));
    assert!(output.contains("ATMEGA328P-AU"));
    assert!(output.contains("U1,ATmega328P,Package_QFP:TQFP-32,1,ATMEGA328P-AU,Microchip,C14877\n"));
}

#[test]
fn test_split_designator() {
    assert_eq!(split_designator("R1"), ("R", 1));
    assert_eq!(split_designator("R12"), ("R", 12));
    assert_eq!(split_designator("C100"), ("C", 100));
    assert_eq!(split_designator("U1"), ("U", 1));
    assert_eq!(split_designator("SW10"), ("SW", 10));
    assert_eq!(split_designator("NoNumber"), ("NoNumber", 0));
}

#[test]
fn test_split_designator_overflow_and_multibyte() {
    assert_eq!(split_designator("R99999999999"), ("R", 0));
    assert_eq!(split_designator("Ω12"), ("Ω", 12));
    assert_eq!(split_designator("42"), ("", 42));
    assert_eq!(split_designator(""), ("", 0));
}

#[test]
fn test_bom_line_grouping_key() {
    let line1 = BomLine {
        designator: "R1".to_string(),
        value: "10k".to_string(),
        footprint: "0402".to_string(),
        quantity: 1,
        manufacturer: "YAGEO".to_string(),
        part_number: "".to_string(),
        lcsc_part_number: "C25744".to_string(),
    };
    let line2 = BomLine {
        designator: "R2".to_string(),
        value: "10k".to_string(),
        footprint: "0402".to_string(),
        quantity: 1,
        manufacturer: "YAGEO".to_string(),
        part_number: "".to_string(),
        lcsc_part_number: "C25744".to_string(),
    };
    let line3 = BomLine {
        designator: "R3".to_string(),
        value: "4.7k".to_string(),
        footprint: "0402".to_string(),
        quantity: 1,
        manufacturer: "YAGEO".to_string(),
        part_number: "".to_string(),
        lcsc_part_number: "C25900".to_string(),
    };
    assert_eq!(line1.grouping_key(), line2.grouping_key());
    assert_ne!(line1.grouping_key(), line3.grouping_key());
    assert_eq!(line1.grouping_key(), "10k|0402||C25744");
}

#[test]
fn test_bom_line_merge() {
    let mut a = BomLine::from_component(&NetlistComponent::new("R1", "1k"));
    let b = BomLine::from_component(&NetlistComponent::new("R7", "1k"));
    a.merge(&b);
    assert_eq!(a.designator, "R1, R7");
    assert_eq!(a.quantity, 2);
}

#[test]
fn test_escape_csv() {
    assert_eq!(escape_csv("hello"), "hello");
    assert_eq!(escape_csv("hello,world"), "\"hello,world\"");
    assert_eq!(escape_csv("hello\"world"), "\"hello\"\"world\"");
    assert_eq!(escape_csv("line1\nline2"), "\"line1\nline2\"");
}

#[test]
fn test_bom_designator_sorting() {
    let mut netlist = Netlist::new();
    netlist.add_component(NetlistComponent::new("R10", "10k").with_footprint("0402").with_property("lcsc", "C1"));
    netlist.add_component(NetlistComponent::new("R2", "10k").with_footprint("0402").with_property("lcsc", "C1"));
    netlist.add_component(NetlistComponent::new("R1", "10k").with_footprint("0402").with_property("lcsc", "C1"));
    let bom = Bom::from_netlist_grouped(&netlist);
    assert_eq!(bom.lines.len(), 1);
    assert_eq!(bom.lines[0].quantity, 3);
    assert_eq!(bom.lines[0].designator, "R1, R2, R10");
}

#[test]
fn test_component_type_from_reference() {
    assert_eq!(ComponentType::from_reference("R1"), ComponentType::Resistor);
    assert_eq!(ComponentType::from_reference("R100"), ComponentType::Resistor);
    assert_eq!(ComponentType::from_reference("C1"), ComponentType::Capacitor);
    assert_eq!(ComponentType::from_reference("L1"), ComponentType::Inductor);
    assert_eq!(ComponentType::from_reference("D1"), ComponentType::Diode);
    assert_eq!(ComponentType::from_reference("LED1"), ComponentType::Led);
    assert_eq!(ComponentType::from_reference("U1"), ComponentType::Ic);
    assert_eq!(ComponentType::from_reference("Q1"), ComponentType::Transistor);
}

#[test]
fn test_component_type_prefix_any_case() {
    assert_eq!(ComponentType::from_prefix("sw"), ComponentType::Switch);
    assert_eq!(ComponentType::from_prefix("xtal"), ComponentType::Crystal);
    assert_eq!(ComponentType::from_prefix("ZZ"), ComponentType::Unknown);
    assert_eq!(ComponentType::Unknown.default_prefix(), "X");
    assert_eq!(ComponentType::Ferrite.default_prefix(), "FB");
}

#[test]
fn test_package_parsing() {
    assert_eq!(Package::from_str("0402"), Package::P0402);
    assert_eq!(Package::from_str("0603"), Package::P0603);
    assert_eq!(Package::from_str("SOT-23"), Package::Sot23);
    assert_eq!(Package::from_str("SOIC-8"), Package::Soic8);
    assert_eq!(Package::from_str("QFP-32"), Package::Qfp32);
}

#[test]
fn test_package_unknown_and_variants() {
    assert_eq!(Package::from_str("tqfp_48"), Package::Qfp48);
    assert_eq!(Package::from_str("weird-pkg"), Package::Unknown("weird-pkg".to_string()));
    assert_eq!(Package::P0805.footprint_suffix(), Some("0805_2012Metric"));
    assert_eq!(Package::Sot23.footprint_suffix(), None);
}

#[test]
fn test_symbol_ref() {
    let sym = SymbolRef::new("Device", "R");
    assert_eq!(sym.lib_id(), "Device:R");
}

#[test]
fn test_footprint_ref() {
    let fp = FootprintRef::new("Resistor_SMD", "R_0402_1005Metric");
    assert_eq!(fp.full_name(), "Resistor_SMD:R_0402_1005Metric");
}

#[test]
fn test_library_mapper_symbols() {
    let mapper = LibraryMapper::new();
    assert_eq!(mapper.get_symbol_lib_id("R1"), "Device:R");
    assert_eq!(mapper.get_symbol_lib_id("C1"), "Device:C");
    assert_eq!(mapper.get_symbol_lib_id("L1"), "Device:L");
    assert_eq!(mapper.get_symbol_lib_id("D1"), "Device:D");
    assert_eq!(mapper.get_symbol_lib_id("LED1"), "Device:LED");
    assert_eq!(mapper.get_symbol_lib_id("U1"), "Device:IC");
}

#[test]
fn test_library_mapper_unknown_symbol() {
    let mapper = LibraryMapper::new();
    assert_eq!(mapper.get_symbol_lib_id("ZZ9"), "Device:R");
    assert_eq!(mapper.get_symbol(ComponentType::Switch).lib_id(), "Switch:SW_Push");
}

#[test]
fn test_library_mapper_footprints() {
    let mapper = LibraryMapper::new();
    assert_eq!(mapper.get_footprint_name("R1", Some("0402")), "Resistor_SMD:R_0402_1005Metric");
    assert_eq!(mapper.get_footprint_name("C1", Some("0603")), "Capacitor_SMD:C_0603_1608Metric");
    assert_eq!(mapper.get_footprint_name("R1", Some("0805")), "Resistor_SMD:R_0805_2012Metric");
    assert_eq!(mapper.get_footprint_name("U1", Some("SOIC-8")), "Package_SO:SOIC-8_3.9x4.9mm_P1.27mm");
}

#[test]
fn test_library_mapper_default_footprint() {
    let mapper = LibraryMapper::new();
    assert!(mapper.get_footprint_name("R1", None).contains("0402"));
    assert_eq!(mapper.get_footprint_name("Q1", Some("mystery")), "Package_TO_SOT_SMD:SOT-23");
    assert_eq!(mapper.get_footprint_name("L1", Some("0201")), "Inductor_SMD:L_0603_1608Metric");
}

#[test]
fn test_get_libraries() {
    let mapper = LibraryMapper::new();
    let symbol_libs = mapper.get_symbol_libraries();
    assert_eq!(symbol_libs, vec!["Connector".to_string(), "Device".to_string(), "Switch".to_string()]);
    let fp_libs = mapper.get_footprint_libraries();
    assert!(fp_libs.contains(&"Resistor_SMD".to_string()));
    assert!(fp_libs.contains(&"Capacitor_SMD".to_string()));
    assert_eq!(fp_libs.len(), 11);
}

#[test]
fn test_get_lib_id() {
    let r = NetlistComponent::new("R1", "10k");
    assert_eq!(get_lib_id_for_component(&r), "Device:R");
    let c = NetlistComponent::new("C1", "100nF");
    assert_eq!(get_lib_id_for_component(&c), "Device:C");
    let u = NetlistComponent::new("U1", "ATmega328P");
    assert_eq!(get_lib_id_for_component(&u), "Device:IC");
}

#[test]
fn test_get_lib_id_unknown_prefix() {
    let x = NetlistComponent::new("TP3", "test");
    assert_eq!(get_lib_id_for_component(&x), "Device:TP3");
    let p = NetlistComponent::new("P2", "hdr");
    assert_eq!(get_lib_id_for_component(&p), "Connector:Conn_01x02");
}

#[test]
fn test_escape_sexpr() {
    assert_eq!(escape_sexpr("hello"), "hello");
    assert_eq!(escape_sexpr("hello\"world"), "hello\\\"world");
    assert_eq!(escape_sexpr("path\\to\\file"), "path\\\\to\\\\file");
}

#[test]
fn test_default_layers_table() {
    let layers = default_layers();
    assert_eq!(layers.len(), 11);
    assert_eq!(layers[0].name, "F.Cu");
    assert_eq!(layers[1].number, 31);
    assert_eq!(layers[6].name, "Edge.Cuts");
    assert_eq!(layers[10].layer_type, "user");
}

#[test]
fn test_default_layers() {
    let layers = default_layers();
    assert!(layers.iter().any(|l| l.name == "F.Cu"));
    assert!(layers.iter().any(|l| l.name == "B.Cu"));
    assert!(layers.iter().any(|l| l.name == "Edge.Cuts"));
}

#[test]
fn test_pad_set_by_prefix() {
    assert_eq!(pad_set(&NetlistComponent::new("R12", "10k")), PadSet::Passive);
    assert_eq!(pad_set(&NetlistComponent::new("C1", "1u")), PadSet::Passive);
    assert_eq!(pad_set(&NetlistComponent::new("L3", "1u")), PadSet::Passive);
    assert_eq!(pad_set(&NetlistComponent::new("D2", "LED")), PadSet::Diode);
    assert_eq!(pad_set(&NetlistComponent::new("U1", "MCU")), PadSet::Generic);
    assert_eq!(pad_set(&NetlistComponent::new("RV1", "pot")), PadSet::Generic);
}

#[test]
fn test_find_pin_net() {
    let nets = vec![
        Net::new("GND").with_node("R1", "2").with_node("C1", "2"),
        Net::new("VCC").with_node("R1", "1").with_node("U1", "VDD"),
    ];
    assert_eq!(find_pin_net(&nets, "R1", "1"), Some((2, "VCC".to_string())));
    assert_eq!(find_pin_net(&nets, "C1", "2"), Some((1, "GND".to_string())));
    assert_eq!(find_pin_net(&nets, "C1", "1"), None);
}

#[test]
fn test_end_to_end_export() {
    let mut design = Design::new();
    let r1_id = design.create_module("Resistor", ModuleKind::Module);
    let _r1_p1 = design.add_field(r1_id, "p1", FieldKind::pin("1"));
    let r1_p2 = design.add_field(r1_id, "p2", FieldKind::pin("2"));
    design.add_field(r1_id, "resistance", FieldKind::parameter_with_unit("ohm"));
    let r2_id = design.create_module("Resistor2", ModuleKind::Module);
    let r2_p1 = design.add_field(r2_id, "p1", FieldKind::pin("1"));
    let _r2_p2 = design.add_field(r2_id, "p2", FieldKind::pin("2"));
    design.add_field(r2_id, "resistance", FieldKind::parameter_with_unit("ohm"));
    let mut ep1 = ConnectionEndpoint::field(FieldPath::simple("p2"));
    ep1.resolved = Some(r1_p2);
    let mut ep2 = ConnectionEndpoint::field(FieldPath::simple("p1"));
    ep2.resolved = Some(r2_p1);
    design.add_connection(r1_id, ep1, ep2);
    design.rebuild_connection_graph();

    let builder = NetlistBuilder::new(&design);
    let netlist = builder.build().unwrap();
    assert!(netlist.component_count() >= 2);

    let exporter = KicadNetlistExporter::new(&netlist);
    let output = exporter.export_to_string().unwrap();
    assert!(output.contains("(export"));
    assert!(output.contains("(components"));
}

#[test]
fn test_netlist_nets() {
    let mut netlist = Netlist::new();
    let mut vcc = Net::new("VCC");
    vcc.add_node(NetNode::new("U1", "VDD"));
    vcc.add_node(NetNode::new("C1", "1"));
    netlist.add_net(vcc);
    assert_eq!(netlist.net_count(), 1);
    let net = netlist.get_net("VCC").unwrap();
    assert_eq!(net.nodes.len(), 2);
}
