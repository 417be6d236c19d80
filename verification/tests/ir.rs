use atopile::connection::{ConnectionEndpoint, ConnectionGraph, ConnectionKind, ConnectionDirection, Connection};
use atopile::constraint::CompareOpKind;
use atopile::design::Design;
use atopile::field::{Field, FieldKind, FieldPath, FieldPathPart, PinNameKind};
use atopile::ids::{ConnectionId, FieldId, ModuleId, QualifiedName};
use atopile::module::{Import, Module, ModuleKind, TemplateArgValue, TraitRef};

#[test]
fn test_module_id() {
    let id = ModuleId::new(42);
    assert_eq!(id.index(), 42);
    assert_eq!(id.to_string(), "Module(42)");
}

#[test]
fn test_field_id() {
    let id = FieldId::new(7);
    assert_eq!(id.index(), 7);
    assert_eq!(id.to_string(), "Field(7)");
}

#[test]
fn test_connection_id() {
    let id = ConnectionId::new(123);
    assert_eq!(id.index(), 123);
    assert_eq!(id.to_string(), "Connection(123)");
}

#[test]
fn test_qualified_name() {
    let name = QualifiedName::new(vec!["path".into(), "to".into(), "Module".into()]);
    assert_eq!(name.name(), "Module");
    assert!(!name.is_simple());
    assert_eq!(name.join("."), "path.to.Module");
    assert_eq!(name.to_string(), "path.to.Module");
}

#[test]
fn test_qualified_name_simple() {
    let name = QualifiedName::simple("Module");
    assert_eq!(name.name(), "Module");
    assert!(name.is_simple());
}

#[test]
fn test_qualified_name_empty_has_empty_name() {
    let name = QualifiedName::new(vec![]);
    assert_eq!(name.name(), "");
    assert_eq!(name.join("::"), "");
    assert!(!name.is_simple());
}

#[test]
fn test_field_creation() {
    let field = Field::new(
        FieldId::new(0),
        ModuleId::new(0),
        "resistance",
        FieldKind::parameter_with_unit("ohm"),
    );

    assert_eq!(field.name, "resistance");
    assert!(field.is_parameter());
    assert!(!field.is_connectable());
}

#[test]
fn test_pin_field() {
    let field = Field::new(FieldId::new(1), ModuleId::new(0), "p1", FieldKind::pin("p1"));

    assert!(field.is_pin());
    assert!(field.is_connectable());
}

#[test]
fn test_signal_field() {
    let field = Field::new(FieldId::new(2), ModuleId::new(0), "sig", FieldKind::signal());

    assert!(field.is_signal());
    assert!(field.is_connectable());
}

#[test]
fn test_instance_field() {
    let field = Field::new(
        FieldId::new(3),
        ModuleId::new(0),
        "r1",
        FieldKind::instance(QualifiedName::simple("Resistor")),
    );

    assert!(field.is_instance());
    assert!(field.is_connectable());
}

#[test]
fn test_field_path() {
    let path = FieldPath::new(vec![
        FieldPathPart::Name("instance".into()),
        FieldPathPart::Index(0),
        FieldPathPart::Name("pin".into()),
    ]);

    assert!(!path.is_simple());
    assert_eq!(path.first_name(), Some("instance"));
}

#[test]
fn test_field_path_first_part_not_a_name() {
    let path = FieldPath::new(vec![FieldPathPart::Index(3)]);
    assert!(!path.is_simple());
    assert_eq!(path.first_name(), None);
    assert!(FieldPath::simple("a").is_simple());
}

#[test]
fn test_pin_name_kinds() {
    assert_eq!(PinNameKind::Identifier("p1".into()).display_name(), "p1");
    assert_eq!(PinNameKind::Number(1).display_name(), "1");
    assert_eq!(PinNameKind::String("GND".into()).display_name(), "\"GND\"");
}

#[test]
fn test_pin_number_display_multi_digit() {
    assert_eq!(PinNameKind::Number(4096).display_name(), "4096");
    assert_eq!(PinNameKind::Number(0).display_name(), "0");
}

#[test]
fn test_endpoint_kinds() {
    let field_ep = ConnectionEndpoint::field(FieldPath::simple("pin1"));
    let signal_ep = ConnectionEndpoint::signal("sig1");
    let pin_ep = ConnectionEndpoint::pin("p1");

    assert_eq!(field_ep.display_name(), "pin1");
    assert_eq!(signal_ep.display_name(), "signal sig1");
    assert_eq!(pin_ep.display_name(), "pin p1");
}

#[test]
fn test_endpoint_display_paths_and_resolved() {
    let ep = ConnectionEndpoint::field(FieldPath::new(vec![
        FieldPathPart::Name("leds".into()),
        FieldPathPart::Index(2),
        FieldPathPart::PinRef(1),
    ]));
    assert_eq!(ep.display_name(), "leds.[2]..1");
    let resolved = ConnectionEndpoint::resolved(FieldId::new(5));
    assert!(resolved.is_resolved());
    assert_eq!(resolved.display_name(), "Field(Some(FieldId(5)))");
}

#[test]
fn test_simple_and_directed_connection() {
    let conn = Connection::new(
        ConnectionId::new(0),
        ModuleId::new(0),
        ConnectionEndpoint::field(FieldPath::simple("a")),
        ConnectionEndpoint::field(FieldPath::simple("b")),
    );
    assert!(conn.is_simple());
    assert!(!conn.is_directed());
    assert_eq!(conn.endpoints.len(), 2);
    assert_eq!(conn.right().unwrap().display_name(), "b");

    let d = Connection::directed(
        ConnectionId::new(1),
        ModuleId::new(0),
        vec![ConnectionEndpoint::signal("x")],
        ConnectionDirection::Forward,
    );
    assert!(d.is_directed());
    assert!(d.right().is_none());
}

#[test]
fn test_connection_graph_component() {
    let mut graph = ConnectionGraph::new();
    let f0 = FieldId::new(0);
    let f1 = FieldId::new(1);
    let f2 = FieldId::new(2);
    let f3 = FieldId::new(3);
    graph.add_connection(f0, f1);
    graph.add_connection(f1, f2);

    assert!(graph.are_connected(f0, f1));
    assert!(graph.are_connected(f1, f0));
    assert!(graph.are_connected(f1, f2));
    assert!(!graph.are_connected(f0, f2));
    assert!(!graph.are_connected(f0, f3));

    let component = graph.connected_component(f0);
    assert_eq!(component.len(), 3);
    assert!(component.contains(&f0));
    assert!(component.contains(&f1));
    assert!(component.contains(&f2));
    assert_eq!(graph.connected_component(f3), vec![f3]);
    assert_eq!(graph.connected_to(f1), &[f0, f2]);
    assert!(graph.connected_to(f3).is_empty());
}

#[test]
fn test_compare_op_symbols() {
    assert_eq!(CompareOpKind::LessThan.symbol(), "<");
    assert_eq!(CompareOpKind::Within.symbol(), "within");
    assert_eq!(CompareOpKind::Is.symbol(), "is");
}

#[test]
fn test_module_kind() {
    assert_eq!(ModuleKind::Module.keyword(), "module");
    assert_eq!(ModuleKind::Component.keyword(), "component");
    assert_eq!(ModuleKind::Interface.keyword(), "interface");
}

#[test]
fn test_module_field_table() {
    let mut module = Module::new(ModuleId::new(0), "MyModule", ModuleKind::Module);
    module.add_field("field1", FieldId::new(0));
    module.add_field("field2", FieldId::new(1));
    assert_eq!(module.fields.len(), 2);
    assert_eq!(module.get_field("field1"), Some(FieldId::new(0)));
    assert_eq!(module.get_field("field2"), Some(FieldId::new(1)));
    assert_eq!(module.get_field("nonexistent"), None);
    module.add_field("field1", FieldId::new(9));
    assert_eq!(module.get_field("field1"), Some(FieldId::new(9)));
    assert_eq!(module.field_names.len(), 2);
}

#[test]
fn test_trait_ref_args() {
    let trait_ref = TraitRef::new(QualifiedName::simple("has_designator"))
        .with_constructor("prefix")
        .with_arg("value", TemplateArgValue::String("R".into()))
        .with_arg("value", TemplateArgValue::Int(3));
    assert_eq!(trait_ref.name.name(), "has_designator");
    assert_eq!(trait_ref.get_string_arg("value"), Some("R"));
    assert!(trait_ref.get_arg("nonexistent").is_none());
    assert_eq!(trait_ref.get_string_arg("nonexistent"), None);
}

#[test]
fn test_import_unresolved() {
    let import = Import::new(vec![QualifiedName::simple("Resistor"), QualifiedName::simple("Capacitor")])
        .with_from_path("path/to/components.ato");
    assert_eq!(import.names.len(), 2);
    assert_eq!(import.resolved, vec![None, None]);
    assert_eq!(import.from_path, Some("path/to/components.ato".into()));
}

#[test]
fn test_design_create_and_find() {
    let mut design = Design::new();
    let m = design.create_module("TestModule", ModuleKind::Module);
    assert_eq!(m.index(), 0);
    assert_eq!(design.find_module("TestModule"), Some(m));
    assert_eq!(design.find_module("NonExistent"), None);
    let module = design.get_module(m).unwrap();
    assert_eq!(module.name, "TestModule");
    assert!(module.is_module());

    let p1 = design.add_field(m, "p1", FieldKind::pin("p1"));
    let r = design.add_field(m, "resistance", FieldKind::parameter_with_unit("ohm"));
    assert_eq!(design.field_count(), 2);
    assert!(design.get_field(p1).unwrap().is_pin());
    assert!(design.get_field(r).unwrap().is_parameter());
    assert_eq!(design.find_field(m, "p1"), Some(p1));
    assert_eq!(design.find_field(m, "resistance"), Some(r));
    assert_eq!(design.find_field(ModuleId::new(7), "p1"), None);

    assert!(design.validate_module_id(m).is_ok());
    assert!(design.validate_field_id(p1).is_ok());
    assert!(design.validate_module_id(ModuleId::new(999)).is_err());
    assert!(design.validate_field_id(FieldId::new(999)).is_err());
}

#[test]
fn test_design_qualified_module() {
    let mut design = Design::new();
    let q = QualifiedName::new(vec!["lib".into(), "Resistor".into()]);
    let m = design.create_module_qualified(q, ModuleKind::Component);
    assert_eq!(design.find_module("lib.Resistor"), Some(m));
    assert_eq!(design.get_module(m).unwrap().name, "Resistor");
}

#[test]
fn test_design_rebuild_graph() {
    let mut design = Design::new();
    let m = design.create_module("M", ModuleKind::Module);
    let a = design.add_field(m, "a", FieldKind::signal());
    let b = design.add_field(m, "b", FieldKind::signal());
    let c = design.add_field(m, "c", FieldKind::signal());
    let mut ea = ConnectionEndpoint::field(FieldPath::simple("a"));
    ea.resolved = Some(a);
    let mut eb = ConnectionEndpoint::field(FieldPath::simple("b"));
    eb.resolved = Some(b);
    design.add_connection(m, ea, eb);
    design.add_directed_connection(
        m,
        vec![ConnectionEndpoint::resolved(b), ConnectionEndpoint::resolved(c)],
        ConnectionKind::Directed(ConnectionDirection::Forward),
    );
    assert_eq!(design.connection_count(), 2);
    assert_eq!(design.get_module(m).unwrap().connections.len(), 2);
    design.rebuild_connection_graph();
    let g = design.connection_graph();
    assert!(g.are_connected(a, b));
    assert!(g.are_connected(c, b));
    assert!(!g.are_connected(a, c));
    assert_eq!(g.connected_component(a).len(), 3);
}

#[test]
fn test_design_entry_module() {
    let mut design = Design::new();
    let id = design.create_module("App", ModuleKind::Module);
    assert!(design.entry_module().is_none());
    design.set_entry_module(id);
    assert_eq!(design.entry_module(), Some(id));
}
