//! Tests of the design model: connections, constraints, modules and designs.

use atopile::connection::{Connection, ConnectionDirection, ConnectionEndpoint, ConnectionGraph};
use atopile::constraint::{
    BinaryOp, CompareOpKind, Constraint, ConstraintExpr, QuantityValue, ToleranceValue, ValueExpr, ValueLiteral,
};
use atopile::design::Design;
use atopile::field::{FieldKind, FieldPath};
use atopile::ids::{ConnectionId, ConstraintId, FieldId, ModuleId, QualifiedName};
use atopile::module::{Import, Module, ModuleKind, TemplateArgValue, TraitRef};

#[test]
fn test_simple_connection() {
    let conn = Connection::new(
        ConnectionId::new(0),
        ModuleId::new(0),
        ConnectionEndpoint::field(FieldPath::simple("a")),
        ConnectionEndpoint::field(FieldPath::simple("b")),
    );

    assert!(conn.is_simple());
    assert!(!conn.is_directed());
    assert_eq!(conn.endpoints.len(), 2);
}

#[test]
fn test_directed_connection() {
    let conn = Connection::directed(
        ConnectionId::new(0),
        ModuleId::new(0),
        vec![
            ConnectionEndpoint::field(FieldPath::simple("a")),
            ConnectionEndpoint::field(FieldPath::simple("b")),
            ConnectionEndpoint::field(FieldPath::simple("c")),
        ],
        ConnectionDirection::Forward,
    );

    assert!(!conn.is_simple());
    assert!(conn.is_directed());
    assert_eq!(conn.endpoints.len(), 3);
}

#[test]
fn test_connection_graph() {
    let mut graph = ConnectionGraph::new();

    let f0 = FieldId::new(0);
    let f1 = FieldId::new(1);
    let f2 = FieldId::new(2);
    let f3 = FieldId::new(3);

    graph.add_connection(f0, f1);
    graph.add_connection(f1, f2);

    assert!(graph.are_connected(f0, f1));
    assert!(graph.are_connected(f1, f0));
    assert!(graph.are_connected(f1, f2));
    assert!(!graph.are_connected(f0, f2));
    assert!(!graph.are_connected(f0, f3));

    let component = graph.connected_component(f0);
    assert_eq!(component.len(), 3);
    assert!(component.contains(&f0));
    assert!(component.contains(&f1));
    assert!(component.contains(&f2));
}

#[test]
fn test_constraint_creation() {
    let constraint = Constraint::new(
        ConstraintId::new(0),
        ModuleId::new(0),
        ConstraintExpr::compare(
            ValueExpr::field(FieldPath::simple("voltage")),
            CompareOpKind::Within,
            ValueExpr::literal(ValueLiteral::range(
                QuantityValue::new(3.0f64.to_bits(), Some("V".into())),
                QuantityValue::new(3.6f64.to_bits(), Some("V".into())),
            )),
        ),
    );

    assert_eq!(constraint.expression.operations.len(), 1);
    assert_eq!(constraint.expression.operations[0].kind, CompareOpKind::Within);
}

#[test]
fn test_quantity_value() {
    let q = QuantityValue::new(10.0f64.to_bits(), Some("kohm".into()));
    assert_eq!(f64::from_bits(q.value_bits), 10.0);
    assert_eq!(q.unit, Some("kohm".into()));
}

#[test]
fn test_tolerance_value() {
    let percent = ToleranceValue::percent(5.0f64.to_bits());
    assert!(percent.is_percent);
    assert_eq!(f64::from_bits(percent.value_bits), 5.0);

    let absolute = ToleranceValue::absolute(100.0f64.to_bits(), Some("mV".into()));
    assert!(!absolute.is_percent);
    assert_eq!(absolute.unit, Some("mV".into()));
}

#[test]
fn test_value_literal() {
    let bilateral = ValueLiteral::bilateral(
        QuantityValue::new(10.0f64.to_bits(), Some("kohm".into())),
        ToleranceValue::percent(5.0f64.to_bits()),
    );

    if let ValueLiteral::Bilateral { base, tolerance } = bilateral {
        assert_eq!(f64::from_bits(base.value_bits), 10.0);
        assert!(tolerance.is_percent);
    } else {
        panic!("Expected bilateral literal");
    }
}

#[test]
fn test_binary_expression() {
    let expr = ValueExpr::binary(
        ValueExpr::field(FieldPath::simple("a")),
        BinaryOp::Add,
        ValueExpr::field(FieldPath::simple("b")),
    );

    if let ValueExpr::Binary { op, .. } = expr {
        assert_eq!(op, BinaryOp::Add);
    } else {
        panic!("Expected binary expression");
    }
}

#[test]
fn test_module_creation() {
    let module = Module::new(ModuleId::new(0), "MyModule", ModuleKind::Module);

    assert_eq!(module.name, "MyModule");
    assert!(module.is_module());
    assert!(!module.is_component());
    assert!(!module.is_interface());
}

#[test]
fn test_module_fields() {
    let mut module = Module::new(ModuleId::new(0), "MyModule", ModuleKind::Module);

    module.add_field("field1", FieldId::new(0));
    module.add_field("field2", FieldId::new(1));

    assert_eq!(module.fields.len(), 2);
    assert_eq!(module.get_field("field1"), Some(FieldId::new(0)));
    assert_eq!(module.get_field("field2"), Some(FieldId::new(1)));
    assert_eq!(module.get_field("nonexistent"), None);
}

#[test]
fn test_trait_ref() {
    let trait_ref = TraitRef::new(QualifiedName::simple("has_designator"))
        .with_constructor("prefix")
        .with_arg("value", TemplateArgValue::String("R".into()));

    assert_eq!(trait_ref.name.name(), "has_designator");
    assert_eq!(trait_ref.constructor, Some("prefix".into()));
    assert_eq!(trait_ref.template_args.len(), 1);

    assert_eq!(trait_ref.get_arg("value"), Some(&TemplateArgValue::String("R".into())));
    assert_eq!(trait_ref.get_string_arg("value"), Some("R"));
    assert_eq!(trait_ref.get_arg("nonexistent"), None);
    assert_eq!(trait_ref.get_string_arg("nonexistent"), None);
}

#[test]
fn test_import() {
    let import = Import::new(vec![
        QualifiedName::simple("Resistor"),
        QualifiedName::simple("Capacitor"),
    ])
    .with_from_path("path/to/components.ato");

    assert_eq!(import.names.len(), 2);
    assert_eq!(import.from_path, Some("path/to/components.ato".into()));
}

#[test]
fn test_design_creation() {
    let design = Design::new();
    assert_eq!(design.module_count(), 0);
    assert_eq!(design.field_count(), 0);
    assert_eq!(design.connection_count(), 0);
}

#[test]
fn test_create_module() {
    let mut design = Design::new();

    let module_id = design.create_module("MyModule", ModuleKind::Module);

    assert_eq!(design.module_count(), 1);
    let module = design.get_module(module_id).unwrap();
    assert_eq!(module.name, "MyModule");
    assert!(module.is_module());
}

#[test]
fn test_find_module() {
    let mut design = Design::new();

    let module_id = design.create_module("TestModule", ModuleKind::Module);

    assert_eq!(design.find_module("TestModule"), Some(module_id));
    assert_eq!(design.find_module("NonExistent"), None);
}

#[test]
fn test_add_fields() {
    let mut design = Design::new();

    let module_id = design.create_module("M", ModuleKind::Module);

    let pin_id = design.add_field(module_id, "p1", FieldKind::pin("p1"));
    let param_id = design.add_field(module_id, "resistance", FieldKind::parameter_with_unit("ohm"));

    assert_eq!(design.field_count(), 2);

    let pin = design.get_field(pin_id).unwrap();
    assert!(pin.is_pin());

    let param = design.get_field(param_id).unwrap();
    assert!(param.is_parameter());

    let module = design.get_module(module_id).unwrap();
    assert_eq!(module.get_field("p1"), Some(pin_id));
    assert_eq!(module.get_field("resistance"), Some(param_id));
}

#[test]
fn test_add_connection() {
    let mut design = Design::new();

    let module_id = design.create_module("M", ModuleKind::Module);
    let _p1 = design.add_field(module_id, "p1", FieldKind::pin("p1"));
    let _p2 = design.add_field(module_id, "p2", FieldKind::pin("p2"));

    let conn_id = design.add_connection(
        module_id,
        ConnectionEndpoint::field(FieldPath::simple("p1")),
        ConnectionEndpoint::field(FieldPath::simple("p2")),
    );

    assert_eq!(design.connection_count(), 1);

    let conn = design.get_connection(conn_id).unwrap();
    assert!(conn.is_simple());
}

#[test]
fn test_add_constraint() {
    let mut design = Design::new();

    let module_id = design.create_module("M", ModuleKind::Module);
    let _resistance = design.add_field(module_id, "resistance", FieldKind::parameter_with_unit("ohm"));

    let constraint_id = design.create_constraint(
        module_id,
        ConstraintExpr::compare(
            ValueExpr::field(FieldPath::simple("resistance")),
            CompareOpKind::Within,
            ValueExpr::literal(ValueLiteral::range(
                QuantityValue::new(9.0f64.to_bits(), Some("kohm".into())),
                QuantityValue::new(11.0f64.to_bits(), Some("kohm".into())),
            )),
        ),
    );

    assert_eq!(design.constraint_count(), 1);
    assert!(design.get_constraint(constraint_id).is_some());
}

#[test]
fn test_validation() {
    let mut design = Design::new();

    let module_id = design.create_module("M", ModuleKind::Module);
    let field_id = design.add_field(module_id, "f", FieldKind::signal());

    assert!(design.validate_module_id(module_id).is_ok());
    assert!(design.validate_field_id(field_id).is_ok());

    assert!(design.validate_module_id(ModuleId::new(999)).is_err());
    assert!(design.validate_field_id(FieldId::new(999)).is_err());
}

#[test]
fn test_entry_module() {
    let mut design = Design::new();

    let module_id = design.create_module("App", ModuleKind::Module);
    assert!(design.entry_module().is_none());

    design.set_entry_module(module_id);
    assert_eq!(design.entry_module(), Some(module_id));
}

#[test]
fn test_resistor_example() {
    let mut design = Design::new();

    let resistor_id = design.create_module("Resistor", ModuleKind::Module);

    design.add_field(resistor_id, "resistance", FieldKind::parameter_with_unit("ohm"));
    design.add_field(resistor_id, "max_power", FieldKind::parameter_with_unit("W"));
    design.add_field(resistor_id, "max_voltage", FieldKind::parameter_with_unit("V"));

    design.add_field(resistor_id, "unnamed", FieldKind::instance_array(QualifiedName::simple("Electrical"), 2));

    let resistor = design.get_module(resistor_id).unwrap();
    assert_eq!(resistor.fields.len(), 4);
}
