//! Tests of the Ato parser.

use atopile::ast::{
    AssignTarget, Assignable, BlockKind, CompareOpKind, ConnectionDirection, Expression, Literal,
    PhysicalLiteral, Statement, BinaryOp, PinName,
};
use atopile::error::ParseError;
use atopile::parser::parse;
use atopile::cli::{parse_error_info, stmt_summary, CliError};

#[test]
fn lib_test_parse_empty() {
    let source = "";
    let file = parse(source).unwrap();
    assert!(file.statements.is_empty());
}

#[test]
fn lib_test_parse_pragma() {
    let source = "#pragma experiment(\"FOR_LOOP\")\n";
    let file = parse(source).unwrap();
    assert_eq!(file.statements.len(), 1);
    assert!(matches!(file.statements[0], Statement::Pragma(_)));
}

#[test]
fn lib_test_parse_import() {
    let source = "import ElectricPower\n";
    let file = parse(source).unwrap();
    assert_eq!(file.statements.len(), 1);
    assert!(matches!(file.statements[0], Statement::Import(_)));
}

#[test]
fn lib_test_parse_from_import() {
    let source = "from \"path/to/file.ato\" import Module\n";
    let file = parse(source).unwrap();
    assert_eq!(file.statements.len(), 1);
    if let Statement::Import(import) = &file.statements[0] {
        assert!(import.from_path.is_some());
    } else {
        panic!("Expected import statement");
    }
}

#[test]
fn lib_test_parse_simple_module() {
    let source = "module M:\n    pass\n";
    let file = parse(source).unwrap();
    assert_eq!(file.statements.len(), 1);
    if let Statement::BlockDef(block) = &file.statements[0] {
        assert_eq!(block.kind, BlockKind::Module);
        assert_eq!(block.name.name, "M");
        assert_eq!(block.body.len(), 1);
    } else {
        panic!("Expected block definition");
    }
}

#[test]
fn test_parse_module_with_super() {
    let source = "module Child from Parent:\n    pass\n";
    let file = parse(source).unwrap();
    if let Statement::BlockDef(block) = &file.statements[0] {
        assert!(block.super_type.is_some());
        assert_eq!(block.super_type.as_ref().unwrap().parts[0].name, "Parent");
    } else {
        panic!("Expected block definition");
    }
}

#[test]
fn test_parse_component() {
    let source = "component C:\n    pin p1\n";
    let file = parse(source).unwrap();
    if let Statement::BlockDef(block) = &file.statements[0] {
        assert_eq!(block.kind, BlockKind::Component);
    } else {
        panic!("Expected component");
    }
}

#[test]
fn test_parse_interface() {
    let source = "interface I:\n    pass\n";
    let file = parse(source).unwrap();
    if let Statement::BlockDef(block) = &file.statements[0] {
        assert_eq!(block.kind, BlockKind::Interface);
    } else {
        panic!("Expected interface");
    }
}

#[test]
fn test_parse_pin() {
    let source = "module M:\n    pin p1\n    pin 1\n    pin \"GND\"\n";
    let file = parse(source).unwrap();
    if let Statement::BlockDef(block) = &file.statements[0] {
        assert_eq!(block.body.len(), 3);
    } else {
        panic!("Expected block");
    }
}

#[test]
fn test_parse_signal() {
    let source = "module M:\n    signal sig\n";
    let file = parse(source).unwrap();
    if let Statement::BlockDef(block) = &file.statements[0] {
        assert!(matches!(block.body[0], Statement::SignalDef(_)));
    } else {
        panic!("Expected block");
    }
}

#[test]
fn lib_test_parse_assignment() {
    let source = "module M:\n    x = 5\n";
    let file = parse(source).unwrap();
    if let Statement::BlockDef(block) = &file.statements[0] {
        assert!(matches!(block.body[0], Statement::Assignment(_)));
    } else {
        panic!("Expected block");
    }
}

#[test]
fn test_parse_new_expression() {
    let source = "module M:\n    x = new SomeType\n";
    let file = parse(source).unwrap();
    if let Statement::BlockDef(block) = &file.statements[0] {
        if let Statement::Assignment(assign) = &block.body[0] {
            assert!(matches!(assign.value, Assignable::New(_)));
        } else {
            panic!("Expected assignment");
        }
    } else {
        panic!("Expected block");
    }
}

#[test]
fn test_parse_new_with_count() {
    let source = "module M:\n    x = new SomeType[10]\n";
    let file = parse(source).unwrap();
    if let Statement::BlockDef(block) = &file.statements[0] {
        if let Statement::Assignment(assign) = &block.body[0] {
            if let Assignable::New(new_expr) = &assign.value {
                assert!(new_expr.count.is_some());
            } else {
                panic!("Expected new expression");
            }
        } else {
            panic!("Expected assignment");
        }
    } else {
        panic!("Expected block");
    }
}

#[test]
fn test_parse_new_with_template() {
    let source = "module M:\n    x = new SomeType<param=1>\n";
    let file = parse(source).unwrap();
    if let Statement::BlockDef(block) = &file.statements[0] {
        if let Statement::Assignment(assign) = &block.body[0] {
            if let Assignable::New(new_expr) = &assign.value {
                assert!(new_expr.template.is_some());
            } else {
                panic!("Expected new expression");
            }
        } else {
            panic!("Expected assignment");
        }
    } else {
        panic!("Expected block");
    }
}

#[test]
fn lib_test_parse_connection() {
    let source = "module M:\n    a ~ b\n";
    let file = parse(source).unwrap();
    if let Statement::BlockDef(block) = &file.statements[0] {
        assert!(matches!(block.body[0], Statement::Connection(_)));
    } else {
        panic!("Expected block");
    }
}

#[test]
fn test_parse_directed_connection() {
    let source = "module M:\n    a ~> b ~> c\n";
    let file = parse(source).unwrap();
    if let Statement::BlockDef(block) = &file.statements[0] {
        if let Statement::DirectedConnection(conn) = &block.body[0] {
            assert_eq!(conn.direction, ConnectionDirection::Forward);
            assert_eq!(conn.elements.len(), 3);
        } else {
            panic!("Expected directed connection");
        }
    } else {
        panic!("Expected block");
    }
}

#[test]
fn test_parse_backward_connection() {
    let source = "module M:\n    a <~ b <~ c\n";
    let file = parse(source).unwrap();
    if let Statement::BlockDef(block) = &file.statements[0] {
        if let Statement::DirectedConnection(conn) = &block.body[0] {
            assert_eq!(conn.direction, ConnectionDirection::Backward);
        } else {
            panic!("Expected directed connection");
        }
    } else {
        panic!("Expected block");
    }
}

#[test]
fn test_parse_retype() {
    let source = "module M:\n    x -> NewType\n";
    let file = parse(source).unwrap();
    if let Statement::BlockDef(block) = &file.statements[0] {
        assert!(matches!(block.body[0], Statement::Retype(_)));
    } else {
        panic!("Expected block");
    }
}

#[test]
fn test_parse_assert() {
    let source = "module M:\n    assert x > 5\n";
    let file = parse(source).unwrap();
    if let Statement::BlockDef(block) = &file.statements[0] {
        assert!(matches!(block.body[0], Statement::Assert(_)));
    } else {
        panic!("Expected block");
    }
}

#[test]
fn test_parse_assert_within() {
    let source = "module M:\n    assert x within 1 to 10\n";
    let file = parse(source).unwrap();
    if let Statement::BlockDef(block) = &file.statements[0] {
        if let Statement::Assert(assert_stmt) = &block.body[0] {
            assert_eq!(assert_stmt.comparison.operations[0].kind, CompareOpKind::Within);
        } else {
            panic!("Expected assert");
        }
    } else {
        panic!("Expected block");
    }
}

#[test]
fn test_parse_trait() {
    let source = "module M:\n    trait some_trait\n";
    let file = parse(source).unwrap();
    if let Statement::BlockDef(block) = &file.statements[0] {
        assert!(matches!(block.body[0], Statement::Trait(_)));
    } else {
        panic!("Expected block");
    }
}

#[test]
fn test_parse_trait_with_constructor() {
    let source = "module M:\n    trait some_trait::constructor\n";
    let file = parse(source).unwrap();
    if let Statement::BlockDef(block) = &file.statements[0] {
        if let Statement::Trait(trait_stmt) = &block.body[0] {
            assert!(trait_stmt.constructor.is_some());
        } else {
            panic!("Expected trait");
        }
    } else {
        panic!("Expected block");
    }
}

#[test]
fn test_parse_trait_with_template() {
    let source = "module M:\n    trait some_trait<arg=1>\n";
    let file = parse(source).unwrap();
    if let Statement::BlockDef(block) = &file.statements[0] {
        if let Statement::Trait(trait_stmt) = &block.body[0] {
            assert!(trait_stmt.template.is_some());
        } else {
            panic!("Expected trait");
        }
    } else {
        panic!("Expected block");
    }
}

#[test]
fn test_parse_for_loop() {
    let source = "module M:\n    for item in container:\n        pass\n";
    let file = parse(source).unwrap();
    if let Statement::BlockDef(block) = &file.statements[0] {
        if let Statement::For(for_stmt) = &block.body[0] {
            assert_eq!(for_stmt.variable.name, "item");
        } else {
            panic!("Expected for loop");
        }
    } else {
        panic!("Expected block");
    }
}

#[test]
fn test_parse_declaration() {
    let source = "module M:\n    field: ohm\n";
    let file = parse(source).unwrap();
    if let Statement::BlockDef(block) = &file.statements[0] {
        assert!(matches!(block.body[0], Statement::Declaration(_)));
    } else {
        panic!("Expected block");
    }
}

#[test]
fn test_parse_declaration_with_assignment() {
    let source = "module M:\n    field: ohm = 100\n";
    let file = parse(source).unwrap();
    if let Statement::BlockDef(block) = &file.statements[0] {
        if let Statement::Assignment(assign) = &block.body[0] {
            assert!(matches!(assign.target, AssignTarget::Declaration(_)));
        } else {
            panic!("Expected assignment");
        }
    } else {
        panic!("Expected block");
    }
}

#[test]
fn lib_test_parse_physical_quantity() {
    let source = "module M:\n    x = 10kohm\n";
    let file = parse(source).unwrap();
    if let Statement::BlockDef(block) = &file.statements[0] {
        if let Statement::Assignment(assign) = &block.body[0] {
            assert!(matches!(assign.value, Assignable::Physical(_)));
        } else {
            panic!("Expected assignment");
        }
    } else {
        panic!("Expected block");
    }
}

#[test]
fn test_parse_range() {
    let source = "module M:\n    x = 1 to 10\n";
    let file = parse(source).unwrap();
    if let Statement::BlockDef(block) = &file.statements[0] {
        if let Statement::Assignment(assign) = &block.body[0] {
            if let Assignable::Physical(PhysicalLiteral::Range(_)) = &assign.value {
                // OK
            } else {
                panic!("Expected range");
            }
        } else {
            panic!("Expected assignment");
        }
    } else {
        panic!("Expected block");
    }
}

#[test]
fn test_parse_bilateral() {
    let source = "module M:\n    x = 10 +/- 5%\n";
    let file = parse(source).unwrap();
    if let Statement::BlockDef(block) = &file.statements[0] {
        if let Statement::Assignment(assign) = &block.body[0] {
            if let Assignable::Physical(PhysicalLiteral::Bilateral(_)) = &assign.value {
                // OK
            } else {
                panic!("Expected bilateral");
            }
        } else {
            panic!("Expected assignment");
        }
    } else {
        panic!("Expected block");
    }
}

#[test]
fn test_parse_arithmetic() {
    let source = "module M:\n    x = a + b * c\n";
    let file = parse(source).unwrap();
    if let Statement::BlockDef(block) = &file.statements[0] {
        if let Statement::Assignment(assign) = &block.body[0] {
            assert!(matches!(assign.value, Assignable::Arithmetic(_)));
        } else {
            panic!("Expected assignment");
        }
    } else {
        panic!("Expected block");
    }
}

#[test]
fn test_parse_string_stmt() {
    let source = "module M:\n    \"docstring\"\n";
    let file = parse(source).unwrap();
    if let Statement::BlockDef(block) = &file.statements[0] {
        assert!(matches!(block.body[0], Statement::StringStmt(_)));
    } else {
        panic!("Expected block");
    }
}

#[test]
fn test_parse_semicolon_separated() {
    let source = "module M:\n    pass; pass; pass\n";
    let file = parse(source).unwrap();
    if let Statement::BlockDef(block) = &file.statements[0] {
        assert_eq!(block.body.len(), 3);
    } else {
        panic!("Expected block");
    }
}

#[test]
fn test_parse_single_line_block() {
    let source = "module M: pass\n";
    let file = parse(source).unwrap();
    if let Statement::BlockDef(block) = &file.statements[0] {
        assert_eq!(block.body.len(), 1);
    } else {
        panic!("Expected block");
    }
}

#[test]
fn test_parse_nested_modules() {
    let source = "module A:\n    module B:\n        pass\n";
    let file = parse(source).unwrap();
    if let Statement::BlockDef(outer) = &file.statements[0] {
        if let Statement::BlockDef(inner) = &outer.body[0] {
            assert_eq!(inner.name.name, "B");
        } else {
            panic!("Expected inner block");
        }
    } else {
        panic!("Expected outer block");
    }
}

#[test]
fn test_parse_field_reference() {
    let source = "module M:\n    a.b.c = 1\n";
    let file = parse(source).unwrap();
    if let Statement::BlockDef(block) = &file.statements[0] {
        if let Statement::Assignment(assign) = &block.body[0] {
            if let AssignTarget::FieldRef(field_ref) = &assign.target {
                assert_eq!(field_ref.parts.len(), 3);
            } else {
                panic!("Expected field ref");
            }
        } else {
            panic!("Expected assignment");
        }
    } else {
        panic!("Expected block");
    }
}

#[test]
fn test_parse_field_with_index() {
    let source = "module M:\n    a[0].b = 1\n";
    let file = parse(source).unwrap();
    if let Statement::BlockDef(block) = &file.statements[0] {
        if let Statement::Assignment(assign) = &block.body[0] {
            if let AssignTarget::FieldRef(field_ref) = &assign.target {
                assert!(field_ref.parts[0].index.is_some());
            } else {
                panic!("Expected field ref");
            }
        } else {
            panic!("Expected assignment");
        }
    } else {
        panic!("Expected block");
    }
}

#[test]
fn test_ast_structure() {
    // Test that AST is correctly structured for a known input
    let source = r#"#pragma experiment("FOR_LOOP")
import ElectricPower
from "path/to/file.ato" import Module

module LED_BADGE:
    """LED Badge with ESP32"""
    power = new ElectricPower
    leds = new LED[10]

    # Connect power to all LEDs
    for led in leds:
        power ~ led.power

    assert power.voltage within 3.0V to 3.6V

    trait has_power<required=True>
"#;

    let file = parse(source).expect("Should parse successfully");

    // Check statements
    assert_eq!(file.statements.len(), 4);

    // Check pragma
    assert!(matches!(&file.statements[0], Statement::Pragma(_)));

    // Check import
    assert!(matches!(&file.statements[1], Statement::Import(_)));

    // Check from import
    if let Statement::Import(import) = &file.statements[2] {
        assert!(import.from_path.is_some());
    } else {
        panic!("Expected import statement");
    }

    // Check module
    if let Statement::BlockDef(block) = &file.statements[3] {
        assert_eq!(block.kind, BlockKind::Module);
        assert_eq!(block.name.name, "LED_BADGE");

        // Should have: docstring, 2 assignments, 1 for loop, 1 assert, 1 trait
        assert!(block.body.len() >= 5, "Module should have at least 5 statements");

        // Check for docstring
        assert!(
            matches!(&block.body[0], Statement::StringStmt(_)),
            "First statement should be docstring"
        );

        // Check for for loop
        let has_for = block.body.iter().any(|s| matches!(s, Statement::For(_)));
        assert!(has_for, "Should have for loop");

        // Check for assert
        let has_assert = block.body.iter().any(|s| matches!(s, Statement::Assert(_)));
        assert!(has_assert, "Should have assert");

        // Check for trait
        let has_trait = block.body.iter().any(|s| matches!(s, Statement::Trait(_)));
        assert!(has_trait, "Should have trait");
    } else {
        panic!("Expected block definition");
    }
}

#[test]
fn test_connection_types() {
    let source = r#"module M:
    # Simple connection
    a ~ b

    # Forward chain
    x ~> y ~> z

    # Backward chain
    p <~ q <~ r
"#;

    let file = parse(source).expect("Should parse successfully");

    if let Statement::BlockDef(block) = &file.statements[0] {
        // Check for simple connection
        let has_connection = block
            .body
            .iter()
            .any(|s| matches!(s, Statement::Connection(_)));
        assert!(has_connection, "Should have simple connection");

        // Check for directed connections
        let directed: Vec<_> = block
            .body
            .iter()
            .filter(|s| matches!(s, Statement::DirectedConnection(_)))
            .collect();
        assert_eq!(directed.len(), 2, "Should have 2 directed connections");
    } else {
        panic!("Expected block definition");
    }
}

#[test]
fn test_physical_quantities() {
    let source = r#"module M:
    resistance = 10kohm +/- 5%
    voltage = 3.3V to 5V
    capacitance = 100nF
    current = 500mA
"#;

    let file = parse(source).expect("Should parse successfully");

    if let Statement::BlockDef(block) = &file.statements[0] {
        assert_eq!(block.body.len(), 4, "Should have 4 assignments");

        // All should be assignments with physical values
        for stmt in &block.body {
            assert!(
                matches!(stmt, Statement::Assignment(_)),
                "All should be assignments"
            );
        }
    } else {
        panic!("Expected block definition");
    }
}

#[test]
fn test_new_expressions() {
    let source = r#"module M:
    simple = new Type
    array = new Type[10]
    templated = new Type<param=1>
    both = new Type[5]<param="value">
"#;

    let file = parse(source).expect("Should parse successfully");

    if let Statement::BlockDef(block) = &file.statements[0] {
        assert_eq!(block.body.len(), 4, "Should have 4 assignments");
    } else {
        panic!("Expected block definition");
    }
}

#[test]
fn test_assert_comparisons() {
    let source = r#"module M:
    assert x > 5
    assert y < 10
    assert z >= 0
    assert w <= 100
    assert v within 1 to 10
    assert u is 5
"#;

    let file = parse(source).expect("Should parse successfully");

    if let Statement::BlockDef(block) = &file.statements[0] {
        assert_eq!(block.body.len(), 6, "Should have 6 assertions");

        for stmt in &block.body {
            assert!(matches!(stmt, Statement::Assert(_)), "All should be assertions");
        }
    } else {
        panic!("Expected block definition");
    }
}

#[test]
fn test_trait_variations() {
    let source = r#"module M:
    trait simple_trait
    trait with_constructor::ctor
    trait with_template<arg=1>
    trait full::ctor<arg="value", num=42>
"#;

    let file = parse(source).expect("Should parse successfully");

    if let Statement::BlockDef(block) = &file.statements[0] {
        assert_eq!(block.body.len(), 4, "Should have 4 trait statements");

        for stmt in &block.body {
            assert!(matches!(stmt, Statement::Trait(_)), "All should be traits");
        }
    } else {
        panic!("Expected block definition");
    }
}

#[test]
fn test_parse_mixed_chain_is_refused() {
    let source = "module M:\n    a ~> b <~ c\n";
    match parse(source) {
        Err(ParseError::MixedConnectionOperators { .. }) => {}
        other => panic!("unexpected result: {:?}", other),
    }
}

#[test]
fn test_parse_number_as_statement_is_refused() {
    let source = "module M:\n    5\n";
    match parse(source) {
        Err(ParseError::Expected { expected, .. }) => assert_eq!(expected, "statement"),
        other => panic!("unexpected result: {:?}", other),
    }
}

#[test]
fn test_parse_missing_colon() {
    let source = "module M\n";
    match parse(source) {
        Err(ParseError::UnexpectedToken { expected, .. }) => assert_eq!(expected, "Colon"),
        other => panic!("unexpected result: {:?}", other),
    }
}

#[test]
fn test_parse_negative_quantity_and_tolerance() {
    let source = "module M:\n    x = -5V\n    y = 10kohm +/- 5%\n";
    let file = parse(source).unwrap();
    if let Statement::BlockDef(block) = &file.statements[0] {
        if let Statement::Assignment(a) = &block.body[0] {
            if let Assignable::Physical(PhysicalLiteral::Quantity(q)) = &a.value {
                assert_eq!(q.number.value, "-5V");
                assert!(q.unit.is_none());
            } else {
                panic!("expected a quantity");
            }
        } else {
            panic!("expected an assignment");
        }
        if let Statement::Assignment(a) = &block.body[1] {
            if let Assignable::Physical(PhysicalLiteral::Bilateral(b)) = &a.value {
                assert_eq!(b.base.number.value, "10kohm");
                assert_eq!(b.tolerance.value, "5");
                assert!(b.tolerance.is_percent);
                assert!(b.tolerance.unit.is_none());
            } else {
                panic!("expected a bilateral quantity");
            }
        } else {
            panic!("expected an assignment");
        }
    } else {
        panic!("expected a block");
    }
}

#[test]
fn test_parse_precedence_and_pin_ref() {
    let source = "module M:\n    x = a + b * c\n    r1.1 ~ pin 2\n";
    let file = parse(source).unwrap();
    if let Statement::BlockDef(block) = &file.statements[0] {
        if let Statement::Assignment(a) = &block.body[0] {
            if let Assignable::Arithmetic(Expression::Binary(sum)) = &a.value {
                assert_eq!(sum.operator, BinaryOp::Add);
                assert!(matches!(&sum.right, Expression::Binary(m) if m.operator == BinaryOp::Mul));
            } else {
                panic!("expected a sum");
            }
        } else {
            panic!("expected an assignment");
        }
        if let Statement::Connection(c) = &block.body[1] {
            if let atopile::ast::Connectable::FieldRef(fr) = &c.left {
                assert_eq!(fr.parts.len(), 1);
                assert_eq!(fr.pin_ref.as_ref().unwrap().value, "1");
            } else {
                panic!("expected a field reference");
            }
            if let atopile::ast::Connectable::PinDef(p) = &c.right {
                assert!(matches!(&p.name, PinName::Number(n) if n.value == "2"));
            } else {
                panic!("expected a pin");
            }
        } else {
            panic!("expected a connection");
        }
    } else {
        panic!("expected a block");
    }
}

#[test]
fn test_parse_template_trailing_comma() {
    let source = "module M:\n    x = new T<a=1, b=\"s\",>\n";
    let file = parse(source).unwrap();
    if let Statement::BlockDef(block) = &file.statements[0] {
        if let Statement::Assignment(a) = &block.body[0] {
            if let Assignable::New(ne) = &a.value {
                let tpl = ne.template.as_ref().unwrap();
                assert_eq!(tpl.args.len(), 2);
                assert_eq!(tpl.args[0].name.name, "a");
                assert!(matches!(&tpl.args[1].value, Literal::String(s) if s.value == "\"s\""));
            } else {
                panic!("expected a new expression");
            }
        } else {
            panic!("expected an assignment");
        }
    } else {
        panic!("expected a block");
    }
}

#[test]
fn test_parse_span_of_statement() {
    let source = "pass\n";
    let file = parse(source).unwrap();
    let span = file.statements[0].span();
    assert_eq!(span.start, 0);
    assert_eq!(span.end, 4);
}

#[test]
fn test_stmt_summary_and_error_info() {
    let file = parse("import A.B, C\nimport X from \"x.ato\"\nmodule Test:\n    pass\n").unwrap();
    assert_eq!(stmt_summary(&file.statements[0]), "import A.B, C");
    assert_eq!(stmt_summary(&file.statements[1]), "import X from \"...\"");
    assert_eq!(stmt_summary(&file.statements[2]), "Module 'Test'");
    let err = parse("module M:\n    a ~> b <~ c\n").unwrap_err();
    let info = parse_error_info(&err);
    assert_eq!(info.message, "mixed connection operators");
    assert_eq!(info.help.as_deref(), Some("use either ~> or <~ consistently, not both"));
    let err = parse("module M:\n    5\n").unwrap_err();
    assert_eq!(err.message(), "expected statement");
}

#[test]
fn test_cli_error_messages() {
    assert_eq!(CliError::io("file not found").message(), "IO error: file not found");
    assert_eq!(CliError::MultipleErrors { count: 3 }.message(), "Build failed with 3 error(s)");
    let e = CliError::parse("a.ato", Vec::new(), String::new());
    assert_eq!(e.message(), "Parse error in a.ato");
}
