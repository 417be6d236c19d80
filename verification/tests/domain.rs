use atopile::parts_query::{query_hints, query_package, query_type, QueryPartType};
use atopile::cli::{kicad_footprint_suffix, parse_entry_point, span_to_tuple, CliError, ParseErrorInfo};
use atopile::token::Span;
use atopile::unit::Unit;
use std::path::{Path, PathBuf};

#[test]
fn test_unit_symbol() {
    assert_eq!(Unit::Volt.symbol(), "V");
    assert_eq!(Unit::Ohm.symbol(), "Ω");
    assert_eq!(Unit::Farad.symbol(), "F");
}

#[test]
fn test_unit_compatibility() {
    assert!(Unit::Volt.is_compatible_with(&Unit::Volt));
    assert!(!Unit::Volt.is_compatible_with(&Unit::Ampere));
    assert!(Unit::Meter.is_compatible_with(&Unit::Millimeter));
}

#[test]
fn test_parse_unit() {
    assert_eq!(Unit::from_str("V"), Some(Unit::Volt));
    assert_eq!(Unit::from_str("ohm"), Some(Unit::Ohm));
    assert_eq!(Unit::from_str("Hz"), Some(Unit::Hertz));
}

#[test]
fn test_parse_unit_more() {
    assert_eq!(Unit::from_str("Ω"), Some(Unit::Ohm));
    assert_eq!(Unit::from_str(""), Some(Unit::Dimensionless));
    assert_eq!(Unit::from_str("MILLIMETERS"), Some(Unit::Millimeter));
    assert_eq!(Unit::from_str("parsec"), None);
}

#[test]
fn test_unit_arithmetic() {
    assert_eq!(Unit::multiply(&Unit::Volt, &Unit::Ampere), Some(Unit::Watt));
    assert_eq!(Unit::multiply(&Unit::Ampere, &Unit::Ohm), Some(Unit::Volt));
    assert_eq!(Unit::multiply(&Unit::Farad, &Unit::Dimensionless), Some(Unit::Farad));
    assert_eq!(Unit::multiply(&Unit::Farad, &Unit::Henry), None);
    assert_eq!(Unit::divide(&Unit::Volt, &Unit::Ampere), Some(Unit::Ohm));
    assert_eq!(Unit::divide(&Unit::Watt, &Unit::Watt), Some(Unit::Dimensionless));
    assert_eq!(Unit::divide(&Unit::Ampere, &Unit::Volt), None);
    assert_eq!(Unit::Millimeter.base_unit(), Unit::Meter);
    assert!(Unit::default().is_dimensionless());
    assert_eq!(Unit::Hertz.name(), "hertz");
}

#[test]
fn test_io_error() {
    let err = CliError::io("test error");
    assert!(matches!(err, CliError::Io { .. }));
}

#[test]
fn test_parse_error() {
    let err = CliError::parse(
        "test.ato",
        vec![ParseErrorInfo { message: "unexpected token".into(), span: Some((0, 5)), help: None }],
        "hello".into(),
    );
    assert!(matches!(err, CliError::Parse { .. }));
}

#[test]
fn test_parse_entry_point() {
    let base = Path::new("/project/src");

    let (path, module) = parse_entry_point("main.ato:MyModule", base).unwrap();
    assert_eq!(path, PathBuf::from("/project/src/main.ato"));
    assert_eq!(module, Some("MyModule".to_string()));

    let (path, module) = parse_entry_point("main.ato", base).unwrap();
    assert_eq!(path, PathBuf::from("/project/src/main.ato"));
    assert_eq!(module, None);
}

#[test]
fn test_parse_entry_point_first_colon() {
    let (path, module) = parse_entry_point("a.ato:B:C", Path::new("/x")).unwrap();
    assert_eq!(path, PathBuf::from("/x/a.ato"));
    assert_eq!(module, Some("B:C".to_string()));
}

#[test]
fn test_kicad_footprint_suffix() {
    assert_eq!(kicad_footprint_suffix("0402"), "0402_1005Metric");
    assert_eq!(kicad_footprint_suffix("0603"), "0603_1608Metric");
    assert_eq!(kicad_footprint_suffix("SOT-23"), "SOT-23");
}

#[test]
fn test_span_to_tuple() {
    assert_eq!(span_to_tuple(&Some(Span::new(4, 9, 1, 5))), Some((4, 5)));
    assert_eq!(span_to_tuple(&None), None);
}

#[test]
fn test_query_keywords() {
    assert_eq!(query_type("10k resistor 0402"), Some(QueryPartType::Resistor));
    assert_eq!(query_type("ceramic cap"), Some(QueryPartType::Capacitor));
    assert_eq!(query_type("power inductor"), Some(QueryPartType::Inductor));
    assert_eq!(query_type("led"), None);
    assert_eq!(query_package("10k resistor 0402"), Some("0402"));
    assert_eq!(query_package("mosfet sot-23"), Some("sot-23"));
    assert_eq!(query_package("through hole"), None);
}

#[test]
fn test_query_hints_any_case() {
    assert_eq!(query_hints("100nF CAP SOT-23"), (Some(QueryPartType::Capacitor), Some("sot-23")));
    assert_eq!(query_hints("Resistor 0603"), (Some(QueryPartType::Resistor), Some("0603")));
}
