//! Verified core of the Ato hardware description language toolchain:
//! lexing, parsing, the intermediate representation, and the export formats.

pub mod token;
pub mod text;
pub mod scan;
pub mod lexer;
pub mod ids;
pub mod field;
pub mod connection;
pub mod constraint;
pub mod module;
pub mod design;
pub mod natord;
pub mod netlist;
pub mod kicad;
pub mod sort;
pub mod bom;
pub mod kicad_library;
pub mod unit;
pub mod cli;
pub mod schematic;
pub mod netlist_builder;
pub mod ast;
pub mod error;
pub mod parser;
pub mod path_graph;
pub mod parts_query;
pub mod reference_prefix;
