use atopile::connection::ConnectionEndpoint;
use atopile::design::Design;
use atopile::field::{FieldKind, FieldPath, FieldPathPart};
use atopile::ids::{ModuleId, QualifiedName};
use atopile::module::{ModuleKind, TemplateArgValue, TraitRef};
use atopile::netlist::{Netlist, PropertyMap};
use atopile::netlist_builder::NetlistBuilder;

fn instance(type_label: &str, count: Option<u32>, resolved: ModuleId) -> FieldKind {
    FieldKind::Instance {
        type_ref: QualifiedName::simple(type_label),
        count,
        resolved_type: Some(resolved),
    }
}

fn refs(netlist: &Netlist) -> Vec<&str> {
    netlist.components.iter().map(|c| c.reference.as_str()).collect()
}

#[test]
fn test_netlist_builder_simple() {
    let mut design = Design::new();
    let module_id = design.create_module("Resistor", ModuleKind::Module);
    let p1 = design.add_field(module_id, "p1", FieldKind::pin("1"));
    let p2 = design.add_field(module_id, "p2", FieldKind::pin("2"));
    design.add_field(module_id, "resistance", FieldKind::parameter_with_unit("ohm"));
    let mut ep1 = ConnectionEndpoint::field(FieldPath::simple("p1"));
    ep1.resolved = Some(p1);
    let mut ep2 = ConnectionEndpoint::field(FieldPath::simple("p2"));
    ep2.resolved = Some(p2);
    design.add_connection(module_id, ep1, ep2);
    design.rebuild_connection_graph();

    let builder = NetlistBuilder::new(&design);
    let netlist = builder.build().unwrap();
    assert_eq!(netlist.component_count(), 1);
    assert!(netlist.get_component("R1").is_some());
}

#[test]
fn test_reference_generation() {
    let design = Design::new();
    let mut builder = NetlistBuilder::new(&design);
    assert_eq!(builder.generate_reference("R"), "R1");
    assert_eq!(builder.generate_reference("R"), "R2");
    assert_eq!(builder.generate_reference("C"), "C1");
    assert_eq!(builder.generate_reference("R"), "R3");
}

#[test]
fn test_has_designator_prefix_trait() {
    let mut design = Design::new();
    let component_id = design.create_module("CustomComponent", ModuleKind::Component);
    design.add_field(component_id, "p1", FieldKind::pin("1"));
    design.add_field(component_id, "p2", FieldKind::pin("2"));
    if let Some(module) = design.get_module_mut(component_id) {
        let trait_ref = TraitRef::new(QualifiedName::simple("has_designator_prefix"))
            .with_constructor("prefix")
            .with_arg("value", TemplateArgValue::String("X".to_string()));
        module.add_trait(trait_ref);
    }
    let app_id = design.create_module("App", ModuleKind::Module);
    design.add_field(app_id, "custom1", instance("CustomComponent", None, component_id));

    let netlist = NetlistBuilder::new(&design).build().unwrap();
    assert_eq!(netlist.component_count(), 1);
    assert!(
        netlist.get_component("X1").is_some(),
        "Component should use 'X' prefix from trait, got components: {:?}",
        refs(&netlist)
    );
}

#[test]
fn test_designator_prefix_fallback_to_name_heuristics() {
    let mut design = Design::new();
    let resistor_id = design.create_module("MyResistor", ModuleKind::Module);
    design.add_field(resistor_id, "p1", FieldKind::pin("1"));
    design.add_field(resistor_id, "p2", FieldKind::pin("2"));
    let app_id = design.create_module("App", ModuleKind::Module);
    design.add_field(app_id, "r1", instance("MyResistor", None, resistor_id));

    let netlist = NetlistBuilder::new(&design).build().unwrap();
    assert_eq!(netlist.component_count(), 1);
    assert!(
        netlist.get_component("R1").is_some(),
        "Resistor should use 'R' prefix from name heuristics, got: {:?}",
        refs(&netlist)
    );
}

#[test]
fn test_gap4_netlist_extracts_instances_not_definitions() {
    let mut design = Design::new();
    let resistor_id = design.create_module("Resistor", ModuleKind::Module);
    design.add_field(resistor_id, "p1", FieldKind::pin("1"));
    design.add_field(resistor_id, "p2", FieldKind::pin("2"));
    design.add_field(resistor_id, "resistance", FieldKind::parameter_with_unit("ohm"));
    let app_id = design.create_module("App", ModuleKind::Module);
    design.add_field(app_id, "r1", instance("Resistor", None, resistor_id));

    let netlist = NetlistBuilder::new(&design).build().unwrap();
    assert_eq!(
        netlist.component_count(),
        1,
        "Should only have instance components, not module definitions. Got: {:?}",
        refs(&netlist)
    );
    assert!(netlist.get_component("R1").is_some(), "Instance r1 should become component R1");
}

#[test]
fn test_gap4_netlist_instance_connections() {
    let mut design = Design::new();
    let resistor_id = design.create_module("Resistor", ModuleKind::Module);
    let p1_id = design.add_field(resistor_id, "p1", FieldKind::pin("1"));
    let p2_id = design.add_field(resistor_id, "p2", FieldKind::pin("2"));
    let app_id = design.create_module("App", ModuleKind::Module);
    design.add_field(app_id, "r1", instance("Resistor", None, resistor_id));
    design.add_field(app_id, "r2", instance("Resistor", None, resistor_id));

    let mut ep1 = ConnectionEndpoint::field(FieldPath::new(vec![
        FieldPathPart::Name("r1".to_string()),
        FieldPathPart::Name("p2".to_string()),
    ]));
    ep1.resolved = Some(p2_id);
    let mut ep2 = ConnectionEndpoint::field(FieldPath::new(vec![
        FieldPathPart::Name("r2".to_string()),
        FieldPathPart::Name("p1".to_string()),
    ]));
    ep2.resolved = Some(p1_id);
    design.add_connection(app_id, ep1, ep2);
    design.rebuild_connection_graph();

    let netlist = NetlistBuilder::new(&design).build().unwrap();
    assert_eq!(netlist.component_count(), 2, "Should have 2 instance components");
    let has_connection = netlist.nets.iter().any(|net| {
        let has_r1_p2 = net.nodes.iter().any(|n| n.component == "R1" && n.pin == "p2");
        let has_r2_p1 = net.nodes.iter().any(|n| n.component == "R2" && n.pin == "p1");
        has_r1_p2 && has_r2_p1
    });
    assert!(has_connection, "Should have a net connecting R1.p2 to R2.p1, got nets: {:?}", netlist.nets);
}

#[test]
fn test_array_instance_expansion() {
    let mut design = Design::new();
    let resistor_id = design.create_module("Resistor", ModuleKind::Module);
    design.add_field(resistor_id, "p1", FieldKind::pin("1"));
    design.add_field(resistor_id, "p2", FieldKind::pin("2"));
    let app_id = design.create_module("App", ModuleKind::Module);
    design.add_field(app_id, "resistors", instance("Resistor", Some(3), resistor_id));

    let netlist = NetlistBuilder::new(&design).build().unwrap();
    assert_eq!(
        netlist.component_count(),
        3,
        "Array of 3 resistors should create 3 components, got: {:?}",
        refs(&netlist)
    );
    assert!(netlist.get_component("R1").is_some());
    assert!(netlist.get_component("R2").is_some());
    assert!(netlist.get_component("R3").is_some());
    for (i, ref_name) in ["R1", "R2", "R3"].iter().enumerate() {
        let comp = netlist.get_component(ref_name).unwrap();
        assert_eq!(comp.properties.get("array_index"), Some(&i.to_string()));
    }
}

#[test]
fn test_solved_values() {
    let mut design = Design::new();
    let resistor_id = design.create_module("Resistor", ModuleKind::Module);
    design.add_field(resistor_id, "p1", FieldKind::pin("1"));
    design.add_field(resistor_id, "p2", FieldKind::pin("2"));
    design.add_field(resistor_id, "resistance", FieldKind::parameter_with_unit("ohm"));
    let app_id = design.create_module("App", ModuleKind::Module);
    design.add_field(app_id, "r1", instance("Resistor", None, resistor_id));

    let mut solved = PropertyMap::new();
    solved.insert("r1.resistance", "10kohm");
    let netlist = NetlistBuilder::new(&design).with_solved_values(solved).build().unwrap();
    assert_eq!(netlist.component_count(), 1);
    let comp = netlist.get_component("R1").unwrap();
    assert_eq!(comp.value, "10kohm");
}

#[test]
fn test_footprint_propagation() {
    let mut design = Design::new();
    let resistor_id = design.create_module("Resistor", ModuleKind::Module);
    design.add_field(resistor_id, "p1", FieldKind::pin("1"));
    design.add_field(resistor_id, "p2", FieldKind::pin("2"));
    design.add_field(resistor_id, "resistance", FieldKind::parameter_with_unit("ohm"));
    design.add_field(resistor_id, "package", FieldKind::parameter());
    design.add_field(resistor_id, "lcsc", FieldKind::parameter());
    let app_id = design.create_module("App", ModuleKind::Module);
    design.add_field(app_id, "r1", instance("Resistor", None, resistor_id));

    let mut solved = PropertyMap::new();
    solved.insert("package", "0402");
    solved.insert("lcsc", "C25076");
    let netlist = NetlistBuilder::new(&design).with_solved_values(solved).build().unwrap();
    let comp = netlist.get_component("R1").unwrap();
    assert!(comp.footprint.is_some());
    assert!(comp.footprint.as_ref().unwrap().contains("R_0402_1005Metric"));
    assert_eq!(comp.properties.get("lcsc"), Some(&"C25076".to_string()));
}

#[test]
fn test_module_value_uses_solved_values() {
    let mut design = Design::new();
    let resistor_id = design.create_module("Resistor", ModuleKind::Module);
    design.add_field(resistor_id, "p1", FieldKind::pin("1"));
    design.add_field(resistor_id, "p2", FieldKind::pin("2"));
    design.add_field(resistor_id, "resistance", FieldKind::parameter_with_unit("ohm"));

    let mut solved = PropertyMap::new();
    solved.insert("resistance", "4.7kohm");
    let netlist = NetlistBuilder::new(&design).with_solved_values(solved).build().unwrap();
    assert_eq!(netlist.component_count(), 1);
    let comp = netlist.get_component("R1").unwrap();
    assert_eq!(comp.value, "4.7kohm", "Module value should use solved_values, got: {}", comp.value);
}

#[test]
fn test_multiple_instances_same_type() {
    let mut design = Design::new();
    let cap_id = design.create_module("Capacitor", ModuleKind::Module);
    design.add_field(cap_id, "p1", FieldKind::pin("1"));
    design.add_field(cap_id, "p2", FieldKind::pin("2"));
    design.add_field(cap_id, "capacitance", FieldKind::parameter_with_unit("F"));
    let app_id = design.create_module("App", ModuleKind::Module);
    for name in ["c1", "c2", "c3"] {
        design.add_field(app_id, name, instance("Capacitor", None, cap_id));
    }

    let netlist = NetlistBuilder::new(&design).build().unwrap();
    assert_eq!(netlist.component_count(), 3, "Should have 3 separate capacitor components");
    assert!(netlist.get_component("C1").is_some());
    assert!(netlist.get_component("C2").is_some());
    assert!(netlist.get_component("C3").is_some());
}

#[test]
fn test_mixed_component_types() {
    let mut design = Design::new();
    let resistor_id = design.create_module("Resistor", ModuleKind::Module);
    design.add_field(resistor_id, "p1", FieldKind::pin("1"));
    design.add_field(resistor_id, "p2", FieldKind::pin("2"));
    let cap_id = design.create_module("Capacitor", ModuleKind::Module);
    design.add_field(cap_id, "p1", FieldKind::pin("1"));
    design.add_field(cap_id, "p2", FieldKind::pin("2"));
    let led_id = design.create_module("LED", ModuleKind::Module);
    design.add_field(led_id, "anode", FieldKind::pin("1"));
    design.add_field(led_id, "cathode", FieldKind::pin("2"));
    let app_id = design.create_module("App", ModuleKind::Module);
    design.add_field(app_id, "r1", instance("Resistor", None, resistor_id));
    design.add_field(app_id, "c1", instance("Capacitor", None, cap_id));
    design.add_field(app_id, "led1", instance("LED", None, led_id));

    let netlist = NetlistBuilder::new(&design).build().unwrap();
    assert_eq!(netlist.component_count(), 3);
    assert!(netlist.get_component("R1").is_some(), "Expected R1, got: {:?}", refs(&netlist));
    assert!(netlist.get_component("C1").is_some());
    assert!(netlist.get_component("D1").is_some());
}

#[test]
fn test_array_instance_with_connections() {
    let mut design = Design::new();
    let resistor_id = design.create_module("Resistor", ModuleKind::Module);
    let p1_id = design.add_field(resistor_id, "p1", FieldKind::pin("1"));
    let p2_id = design.add_field(resistor_id, "p2", FieldKind::pin("2"));
    let app_id = design.create_module("App", ModuleKind::Module);
    design.add_field(app_id, "resistors", instance("Resistor", Some(2), resistor_id));

    let mut ep1 = ConnectionEndpoint::field(FieldPath::new(vec![
        FieldPathPart::Name("resistors".to_string()),
        FieldPathPart::Index(0),
        FieldPathPart::Name("p2".to_string()),
    ]));
    ep1.resolved = Some(p2_id);
    let mut ep2 = ConnectionEndpoint::field(FieldPath::new(vec![
        FieldPathPart::Name("resistors".to_string()),
        FieldPathPart::Index(1),
        FieldPathPart::Name("p1".to_string()),
    ]));
    ep2.resolved = Some(p1_id);
    design.add_connection(app_id, ep1, ep2);
    design.rebuild_connection_graph();

    let netlist = NetlistBuilder::new(&design).build().unwrap();
    assert_eq!(netlist.component_count(), 2);
    let has_connection = netlist.nets.iter().any(|net| {
        let has_r1_p2 = net.nodes.iter().any(|n| n.component == "R1" && n.pin == "p2");
        let has_r2_p1 = net.nodes.iter().any(|n| n.component == "R2" && n.pin == "p1");
        has_r1_p2 && has_r2_p1
    });
    assert!(
        has_connection,
        "Should have a net connecting R1.p2 to R2.p1 (array instances), got nets: {:?}",
        netlist.nets
    );
}

#[test]
fn test_instance_solved_values_per_instance() {
    let mut design = Design::new();
    let resistor_id = design.create_module("Resistor", ModuleKind::Module);
    design.add_field(resistor_id, "p1", FieldKind::pin("1"));
    design.add_field(resistor_id, "p2", FieldKind::pin("2"));
    design.add_field(resistor_id, "resistance", FieldKind::parameter_with_unit("ohm"));
    let app_id = design.create_module("App", ModuleKind::Module);
    design.add_field(app_id, "r1", instance("Resistor", None, resistor_id));
    design.add_field(app_id, "r2", instance("Resistor", None, resistor_id));

    let mut solved = PropertyMap::new();
    solved.insert("r1.resistance", "10kohm");
    solved.insert("r2.resistance", "47kohm");
    let netlist = NetlistBuilder::new(&design).with_solved_values(solved).build().unwrap();
    assert_eq!(netlist.component_count(), 2);
    let r1 = netlist.get_component("R1").unwrap();
    let r2 = netlist.get_component("R2").unwrap();
    assert_eq!(r1.value, "10kohm", "R1 should have its own solved value");
    assert_eq!(r2.value, "47kohm", "R2 should have its own solved value");
}

#[test]
fn test_footprint_from_explicit_field() {
    let mut design = Design::new();
    let ic_id = design.create_module("MyIC", ModuleKind::Module);
    design.add_field(ic_id, "p1", FieldKind::pin("1"));
    design.add_field(ic_id, "p2", FieldKind::pin("2"));
    design.add_field(ic_id, "footprint", FieldKind::parameter());
    let app_id = design.create_module("App", ModuleKind::Module);
    design.add_field(app_id, "u1", instance("MyIC", None, ic_id));

    let mut solved = PropertyMap::new();
    solved.insert("footprint", "Package_QFP:LQFP-48_7x7mm_P0.5mm");
    let netlist = NetlistBuilder::new(&design).with_solved_values(solved).build().unwrap();
    let comp = netlist.get_component("U1").unwrap();
    assert_eq!(
        comp.footprint.as_deref(),
        Some("Package_QFP:LQFP-48_7x7mm_P0.5mm"),
        "Should use explicit footprint from solved_values"
    );
}

#[test]
fn test_empty_design_produces_empty_netlist() {
    let design = Design::new();
    let netlist = NetlistBuilder::new(&design).build().unwrap();
    assert_eq!(netlist.component_count(), 0);
    assert_eq!(netlist.net_count(), 0);
}

#[test]
fn test_interface_modules_are_not_components() {
    let mut design = Design::new();
    let iface_id = design.create_module("Electrical", ModuleKind::Interface);
    design.add_field(iface_id, "line", FieldKind::pin("1"));
    let netlist = NetlistBuilder::new(&design).build().unwrap();
    assert_eq!(netlist.component_count(), 0, "Interface modules should not become components");
}

fn deterministic_design() -> Netlist {
    let mut design = Design::new();
    let resistor_id = design.create_module("Resistor", ModuleKind::Module);
    design.add_field(resistor_id, "p1", FieldKind::pin("1"));
    design.add_field(resistor_id, "p2", FieldKind::pin("2"));
    let cap_id = design.create_module("Capacitor", ModuleKind::Module);
    design.add_field(cap_id, "p1", FieldKind::pin("1"));
    design.add_field(cap_id, "p2", FieldKind::pin("2"));
    let app_id = design.create_module("App", ModuleKind::Module);
    design.add_field(app_id, "r2", instance("Resistor", None, resistor_id));
    design.add_field(app_id, "c1", instance("Capacitor", None, cap_id));
    design.add_field(app_id, "r1", instance("Resistor", None, resistor_id));
    NetlistBuilder::new(&design).build().unwrap()
}

#[test]
fn test_deterministic_designator_assignment() {
    let netlist1 = deterministic_design();
    let netlist2 = deterministic_design();
    assert_eq!(netlist1.component_count(), netlist2.component_count());
    let refs1 = refs(&netlist1);
    let refs2 = refs(&netlist2);
    assert_eq!(refs1, refs2, "Designators must be identical across builds");
    assert_eq!(refs1, vec!["C1", "R1", "R2"]);
}

#[test]
fn test_deterministic_designator_by_hierarchy_path() {
    let mut design = Design::new();
    let resistor_id = design.create_module("Resistor", ModuleKind::Module);
    design.add_field(resistor_id, "p1", FieldKind::pin("1"));
    design.add_field(resistor_id, "p2", FieldKind::pin("2"));
    let app_id = design.create_module("App", ModuleKind::Module);
    design.add_field(app_id, "r_z", instance("Resistor", None, resistor_id));
    design.add_field(app_id, "r_a", instance("Resistor", None, resistor_id));

    let netlist = NetlistBuilder::new(&design).build().unwrap();
    assert_eq!(netlist.component_count(), 2);
    let r1 = netlist.get_component("R1").unwrap();
    assert_eq!(
        r1.properties.get("instance").map(|s| s.as_str()),
        Some("r_a"),
        "R1 should be the alphabetically first instance (r_a)"
    );
    let r2 = netlist.get_component("R2").unwrap();
    assert_eq!(
        r2.properties.get("instance").map(|s| s.as_str()),
        Some("r_z"),
        "R2 should be the alphabetically second instance (r_z)"
    );
}

#[test]
fn test_deterministic_net_names() {
    let mut design = Design::new();
    let resistor_id = design.create_module("Resistor", ModuleKind::Module);
    design.add_field(resistor_id, "p1", FieldKind::pin("1"));
    design.add_field(resistor_id, "p2", FieldKind::pin("2"));
    let app_id = design.create_module("App", ModuleKind::Module);
    design.add_field(app_id, "r1", instance("Resistor", None, resistor_id));
    design.add_field(app_id, "r2", instance("Resistor", None, resistor_id));
    let ep1 = ConnectionEndpoint::field(FieldPath::new(vec![
        FieldPathPart::Name("r1".to_string()),
        FieldPathPart::Name("p2".to_string()),
    ]));
    let ep2 = ConnectionEndpoint::field(FieldPath::new(vec![
        FieldPathPart::Name("r2".to_string()),
        FieldPathPart::Name("p1".to_string()),
    ]));
    design.add_connection(app_id, ep1, ep2);
    design.rebuild_connection_graph();

    let netlist = NetlistBuilder::new(&design).with_entry_module(app_id).build().unwrap();
    if !netlist.nets.is_empty() {
        let net = &netlist.nets[0];
        assert!(
            !net.name.starts_with("Net"),
            "Net name should be descriptive, not 'Net{}'. Got: '{}'",
            1,
            net.name
        );
    }
    let netlist2 = NetlistBuilder::new(&design).with_entry_module(app_id).build().unwrap();
    let names1: Vec<&str> = netlist.nets.iter().map(|n| n.name.as_str()).collect();
    let names2: Vec<&str> = netlist2.nets.iter().map(|n| n.name.as_str()).collect();
    assert_eq!(names1, names2, "Net names must be identical across builds");
}

#[test]
fn test_components_sorted_in_output() {
    let mut design = Design::new();
    let resistor_id = design.create_module("Resistor", ModuleKind::Module);
    design.add_field(resistor_id, "p1", FieldKind::pin("1"));
    design.add_field(resistor_id, "p2", FieldKind::pin("2"));
    let cap_id = design.create_module("Capacitor", ModuleKind::Module);
    design.add_field(cap_id, "p1", FieldKind::pin("1"));
    design.add_field(cap_id, "p2", FieldKind::pin("2"));
    let led_id = design.create_module("LED", ModuleKind::Module);
    design.add_field(led_id, "anode", FieldKind::pin("1"));
    design.add_field(led_id, "cathode", FieldKind::pin("2"));
    let app_id = design.create_module("App", ModuleKind::Module);
    design.add_field(app_id, "led1", instance("LED", None, led_id));
    design.add_field(app_id, "r1", instance("Resistor", None, resistor_id));
    design.add_field(app_id, "c1", instance("Capacitor", None, cap_id));

    let netlist = NetlistBuilder::new(&design).build().unwrap();
    assert_eq!(refs(&netlist), vec!["C1", "D1", "R1"], "Components should be sorted by reference");
}

#[test]
fn test_builder_net_for_connected_pins_with_entry() {
    // r1.p2 ~ r2.p1 inside App, read from App: one net named after the
    // least path, holding both pins in order.
    let mut design = Design::new();
    let resistor_id = design.create_module("Resistor", ModuleKind::Module);
    design.add_field(resistor_id, "p1", FieldKind::pin("1"));
    design.add_field(resistor_id, "p2", FieldKind::pin("2"));
    let app_id = design.create_module("App", ModuleKind::Module);
    design.add_field(app_id, "r1", instance("Resistor", None, resistor_id));
    design.add_field(app_id, "r2", instance("Resistor", None, resistor_id));
    let ep1 = ConnectionEndpoint::field(FieldPath::new(vec![
        FieldPathPart::Name("r1".to_string()),
        FieldPathPart::Name("p2".to_string()),
    ]));
    let ep2 = ConnectionEndpoint::field(FieldPath::new(vec![
        FieldPathPart::Name("r2".to_string()),
        FieldPathPart::Name("p1".to_string()),
    ]));
    design.add_connection(app_id, ep1, ep2);
    let netlist = NetlistBuilder::new(&design).with_entry_module(app_id).build().unwrap();
    assert_eq!(netlist.metadata.tool.as_deref(), Some("ato-export"));
    assert_eq!(netlist.nets.len(), 1);
    assert_eq!(netlist.nets[0].name, "r1_p2");
    let pins: Vec<(&str, &str)> = netlist.nets[0]
        .nodes
        .iter()
        .map(|n| (n.component.as_str(), n.pin.as_str()))
        .collect();
    assert_eq!(pins, vec![("R1", "p2"), ("R2", "p1")]);
}

#[test]
fn test_builder_unconnected_pins_give_no_net() {
    let mut design = Design::new();
    let resistor_id = design.create_module("Resistor", ModuleKind::Module);
    design.add_field(resistor_id, "p1", FieldKind::pin("1"));
    let app_id = design.create_module("App", ModuleKind::Module);
    design.add_field(app_id, "r1", instance("Resistor", None, resistor_id));
    let netlist = NetlistBuilder::new(&design).build().unwrap();
    assert_eq!(netlist.net_count(), 0);
    let r1 = netlist.get_component("R1").unwrap();
    assert_eq!(r1.value, "Resistor");
    assert_eq!(r1.properties.get("module").map(|s| s.as_str()), Some("Resistor"));
}

fn path(a: &str, b: &str) -> ConnectionEndpoint {
    ConnectionEndpoint::field(FieldPath::new(vec![
        FieldPathPart::Name(a.to_string()),
        FieldPathPart::Name(b.to_string()),
    ]))
}

#[test]
fn test_builder_connections_in_both_directions_join_one_net() {
    // r1.p2 ~ r2.p1 and r3.p1 ~ r2.p1: the three pins form one group, reached
    // from either side, and so one net.
    let mut design = Design::new();
    let resistor_id = design.create_module("Resistor", ModuleKind::Module);
    design.add_field(resistor_id, "p1", FieldKind::pin("1"));
    design.add_field(resistor_id, "p2", FieldKind::pin("2"));
    let app_id = design.create_module("App", ModuleKind::Module);
    design.add_field(app_id, "r1", instance("Resistor", None, resistor_id));
    design.add_field(app_id, "r2", instance("Resistor", None, resistor_id));
    design.add_field(app_id, "r3", instance("Resistor", None, resistor_id));
    design.add_connection(app_id, path("r1", "p2"), path("r2", "p1"));
    design.add_connection(app_id, path("r3", "p1"), path("r2", "p1"));
    let netlist = NetlistBuilder::new(&design).with_entry_module(app_id).build().unwrap();
    assert_eq!(netlist.nets.len(), 1);
    assert_eq!(netlist.nets[0].name, "r1_p2");
    let pins: Vec<(&str, &str)> = netlist.nets[0]
        .nodes
        .iter()
        .map(|n| (n.component.as_str(), n.pin.as_str()))
        .collect();
    assert_eq!(pins, vec![("R1", "p2"), ("R2", "p1"), ("R3", "p1")]);
}

#[test]
fn test_builder_two_groups_two_nets() {
    let mut design = Design::new();
    let resistor_id = design.create_module("Resistor", ModuleKind::Module);
    design.add_field(resistor_id, "p1", FieldKind::pin("1"));
    design.add_field(resistor_id, "p2", FieldKind::pin("2"));
    let app_id = design.create_module("App", ModuleKind::Module);
    design.add_field(app_id, "r1", instance("Resistor", None, resistor_id));
    design.add_field(app_id, "r2", instance("Resistor", None, resistor_id));
    design.add_connection(app_id, path("r1", "p1"), path("r2", "p1"));
    design.add_connection(app_id, path("r2", "p2"), path("r1", "p2"));
    let netlist = NetlistBuilder::new(&design).with_entry_module(app_id).build().unwrap();
    let names: Vec<&str> = netlist.nets.iter().map(|n| n.name.as_str()).collect();
    assert_eq!(names, vec!["r1_p1", "r1_p2"]);
}
