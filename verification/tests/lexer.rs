use atopile::lexer::{lex, Lexer, LexerError};
use atopile::token::{Span, TokenKind};

#[test]
fn test_simple_tokens() {
    let source = "module MyModule:";
    let (tokens, errors) = lex(source);

    assert!(errors.is_empty());
    assert_eq!(tokens.len(), 5); // module, MyModule, :, NEWLINE, EOF

    assert_eq!(tokens[0].kind, TokenKind::Module);
    assert_eq!(tokens[1].kind, TokenKind::Name);
    assert_eq!(tokens[1].text, "MyModule");
    assert_eq!(tokens[2].kind, TokenKind::Colon);
}

#[test]
fn test_indentation() {
    let source = "module M:\n    pin p1\n";
    let (tokens, errors) = lex(source);

    assert!(errors.is_empty(), "Errors: {:?}", errors);
    let has_indent = tokens.iter().any(|t| t.kind == TokenKind::Indent);
    assert!(has_indent, "Should have INDENT token. Tokens: {:?}", tokens);
}

#[test]
fn test_dedent() {
    let source = "module M:\n    pin p1\nmodule N:";
    let (tokens, errors) = lex(source);

    assert!(errors.is_empty(), "Errors: {:?}", errors);
    let has_dedent = tokens.iter().any(|t| t.kind == TokenKind::Dedent);
    assert!(has_dedent, "Should have DEDENT token. Tokens: {:?}", tokens);
}

#[test]
fn test_numbers() {
    let source = "x = 10kohm";
    let (tokens, errors) = lex(source);

    assert!(errors.is_empty());
    let num_token = tokens.iter().find(|t| t.kind == TokenKind::Number);
    assert!(num_token.is_some());
    assert_eq!(num_token.unwrap().text, "10kohm");
}

#[test]
fn test_operators() {
    let source = "a ~ b ~> c <~ d";
    let (tokens, errors) = lex(source);

    assert!(errors.is_empty());
    let kinds: Vec<_> = tokens.iter().map(|t| t.kind).collect();
    assert!(kinds.contains(&TokenKind::Wire));
    assert!(kinds.contains(&TokenKind::Sperm));
    assert!(kinds.contains(&TokenKind::LSperm));
}

#[test]
fn test_string_literal() {
    let source = r#"name = "hello""#;
    let (tokens, errors) = lex(source);

    assert!(errors.is_empty());
    let str_token = tokens.iter().find(|t| t.kind == TokenKind::String);
    assert!(str_token.is_some());
    assert_eq!(str_token.unwrap().text, r#""hello""#);
}

#[test]
fn test_pragma() {
    let source = "#pragma experiment(\"FOR_LOOP\")\nmodule M:";
    let (tokens, errors) = lex(source);

    assert!(errors.is_empty());
    let pragma = tokens.iter().find(|t| t.kind == TokenKind::Pragma);
    assert!(pragma.is_some());
}

#[test]
fn test_implicit_line_joining() {
    let source = "x = (\n    1 +\n    2\n)";
    let (tokens, errors) = lex(source);

    assert!(errors.is_empty());
    let kinds: Vec<_> = tokens.iter().map(|t| t.kind).collect();
    let indent_count = kinds.iter().filter(|k| **k == TokenKind::Indent).count();
    assert_eq!(indent_count, 0, "Should not have INDENT inside parens");
}

#[test]
fn test_plus_or_minus() {
    let source = "x = 5V +/- 10%";
    let (tokens, errors) = lex(source);

    assert!(errors.is_empty());
    let has_plus_minus = tokens.iter().any(|t| t.kind == TokenKind::PlusOrMinus);
    assert!(has_plus_minus);
}

#[test]
fn test_arrow() {
    let source = "a -> B";
    let (tokens, errors) = lex(source);

    assert!(errors.is_empty());
    let has_arrow = tokens.iter().any(|t| t.kind == TokenKind::Arrow);
    assert!(has_arrow);
}

#[test]
fn test_line_numbers() {
    let source = "a\nb\nc";
    let (tokens, _) = lex(source);

    assert_eq!(tokens[0].span.line, 1); // a
    assert_eq!(tokens[2].span.line, 2); // b (after newline)
    assert_eq!(tokens[4].span.line, 3); // c
}

#[test]
fn test_stream_ends_with_single_eof() {
    for source in ["", "\n\n", "module M:\n    pass\n", "# only a comment", "x = (1,\n 2"] {
        let (tokens, _) = lex(source);
        assert_eq!(tokens.last().map(|t| t.kind), Some(TokenKind::Eof), "source {:?}", source);
        assert_eq!(tokens.iter().filter(|t| t.kind == TokenKind::Eof).count(), 1);
        assert!(tokens.iter().all(|t| !t.kind.is_hidden()));
    }
}

#[test]
fn test_empty_source_is_only_eof() {
    let (tokens, errors) = lex("");
    assert_eq!(tokens.len(), 1);
    assert_eq!(tokens[0].kind, TokenKind::Eof);
    assert_eq!(tokens[0].span, Span::new(0, 0, 1, 1));
    assert!(errors.is_empty());
}

#[test]
fn test_indent_dedent_balance_and_spans() {
    let source = "module A:\n    module B:\n        pass\n";
    let (tokens, errors) = lex(source);
    assert!(errors.is_empty());
    let indents = tokens.iter().filter(|t| t.kind == TokenKind::Indent).count();
    let dedents = tokens.iter().filter(|t| t.kind == TokenKind::Dedent).count();
    assert_eq!(indents, 2);
    assert_eq!(dedents, 2);
    let first_indent = tokens.iter().find(|t| t.kind == TokenKind::Indent).unwrap();
    assert_eq!(first_indent.span, Span::new(14, 14, 2, 5));
    assert_eq!(first_indent.text, "<INDENT>");
}

#[test]
fn test_unexpected_character_error() {
    let (tokens, errors) = lex("a $ b");
    assert_eq!(errors, vec![LexerError::UnexpectedCharacter { ch: '$', line: 1, column: 3 }]);
    assert!(tokens.iter().any(|t| t.kind == TokenKind::Error && t.text == "$"));
}

#[test]
fn test_inconsistent_dedent_error() {
    let (_, errors) = lex("module A:\n    pass\n  pass\n");
    assert_eq!(errors, vec![LexerError::InconsistentDedent { line: 3 }]);
}

#[test]
fn test_mixed_tabs_and_spaces_error() {
    let (_, errors) = lex("module A:\n    pass\nmodule B:\n\tpass\n");
    assert_eq!(errors, vec![LexerError::InconsistentIndentation { line: 5 }]);
}

#[test]
fn test_first_statement_indented_error() {
    let (_, errors) = lex("\n  x = 1\n");
    assert_eq!(errors, vec![LexerError::FirstStatementIndented { line: 2 }]);
}

#[test]
fn test_number_forms() {
    let kinds_texts = |s: &str| -> Vec<(TokenKind, String)> {
        lex(s).0.into_iter().map(|t| (t.kind, t.text)).collect()
    };
    let toks = kinds_texts("0xFF 1.5e3V 3j 1e x");
    assert_eq!(toks[0], (TokenKind::Number, "0xFF".to_string()));
    assert_eq!(toks[1], (TokenKind::Number, "1.5e3V".to_string()));
    assert_eq!(toks[2], (TokenKind::ImagNumber, "3j".to_string()));
    assert_eq!(toks[3], (TokenKind::Number, "1e".to_string()));
    assert_eq!(toks[4], (TokenKind::Name, "x".to_string()));
}

#[test]
fn test_keywords_and_prefixed_strings() {
    let (tokens, _) = lex("component components int f\"x\" rb'y' '''a'b'''");
    let kinds: Vec<_> = tokens.iter().map(|t| t.kind).collect();
    assert_eq!(
        &kinds[..6],
        &[
            TokenKind::Component,
            TokenKind::Name,
            TokenKind::Int,
            TokenKind::String,
            TokenKind::BytesLiteral,
            TokenKind::String
        ]
    );
    assert_eq!(tokens[5].text, "'''a'b'''");
}

#[test]
fn test_multibyte_offsets() {
    let (tokens, errors) = lex("x = 5 \u{B1} 1");
    assert!(errors.is_empty());
    let pm = tokens.iter().find(|t| t.kind == TokenKind::PlusOrMinus).unwrap();
    assert_eq!((pm.span.start, pm.span.end), (6, 8));
    let one = &tokens[4];
    assert_eq!((one.span.start, one.span.column), (9, 10));
}

#[test]
fn test_lexer_step_by_step() {
    let mut lexer = Lexer::new("a");
    let mut kinds = Vec::new();
    while let Some(t) = lexer.next_token() {
        kinds.push(t.kind);
    }
    assert_eq!(kinds, vec![TokenKind::Name, TokenKind::Newline, TokenKind::Eof]);
    assert!(lexer.next_token().is_none());
    assert!(lexer.take_errors().is_empty());
}

#[test]
fn test_token_kind_names() {
    assert_eq!(TokenKind::Component.name(), "component");
    assert_eq!(TokenKind::Sperm.name(), "~>");
    assert_eq!(TokenKind::Eof.name(), "EOF");
    assert!(TokenKind::Module.is_keyword());
    assert!(TokenKind::Int.is_reserved());
    assert!(!TokenKind::Name.is_keyword());
    assert!(TokenKind::OpenBrace.is_open_bracket());
    assert!(TokenKind::CloseParen.is_close_bracket());
    assert!(TokenKind::Comment.is_hidden());
}

#[test]
fn test_span_merge() {
    let a = Span::new(5, 8, 2, 3);
    let b = Span::new(1, 4, 1, 7);
    assert_eq!(a.merge(&b), Span::new(1, 8, 1, 7));
    assert_eq!(b.merge(&a), Span::new(1, 8, 1, 7));
    assert_eq!(Span::default(), Span::new(0, 0, 1, 1));
}

#[test]
fn test_comprehensive_tokens() {
    // Test all major token types in one source
    let source = r#"#pragma experiment("FOR_LOOP")
# This is a comment
import ElectricPower
from "path/to/file.ato" import Module

component MyComponent:
    """Docstring"""
    pin p1
    signal sig

module MyModule from BaseModule:
    # Declarations
    field: ohm
    power = new ElectricPower
    resistors = new Resistor[10]

    # Assignments
    resistance = 10kohm +/- 5%
    voltage = 3.3V to 5V
    flag = True
    name = "hello"

    # Connections
    p1 ~ p2
    a ~> bridge ~> b
    c <~ other <~ d
    x -> SomeType

    # Assertions
    assert voltage within 3V to 6V
    assert current is 100mA +/- 10%
    assert x >= 0V
    assert y <= 10V

    # For loop
    for item in resistors:
        item ~ power

    # Trait
    trait some_trait<arg = 1>
    trait other::constructor

    # Operators
    sum = a + b - c * d / e ** f
    hex = 0xFF
    bin = 0b1010
    oct = 0o77

    # Expression with parens
    grouped = (x + y)

interface MyInterface:
    pass
"#;

    let (tokens, errors) = lex(source);

    assert!(errors.is_empty(), "Unexpected errors: {:?}", errors);

    // Collect all token kinds
    let kinds: Vec<_> = tokens.iter().map(|t| t.kind).collect();

    // Verify we got all expected token types
    assert!(kinds.contains(&TokenKind::Pragma));
    assert!(kinds.contains(&TokenKind::Import));
    assert!(kinds.contains(&TokenKind::From));
    assert!(kinds.contains(&TokenKind::Component));
    assert!(kinds.contains(&TokenKind::Module));
    assert!(kinds.contains(&TokenKind::Interface));
    assert!(kinds.contains(&TokenKind::Pin));
    assert!(kinds.contains(&TokenKind::Signal));
    assert!(kinds.contains(&TokenKind::New));
    assert!(kinds.contains(&TokenKind::Assign));
    assert!(kinds.contains(&TokenKind::Wire));
    assert!(kinds.contains(&TokenKind::Sperm));
    assert!(kinds.contains(&TokenKind::LSperm));
    assert!(kinds.contains(&TokenKind::Arrow));
    assert!(kinds.contains(&TokenKind::Assert));
    assert!(kinds.contains(&TokenKind::Within));
    assert!(kinds.contains(&TokenKind::Is));
    assert!(kinds.contains(&TokenKind::To));
    assert!(kinds.contains(&TokenKind::For));
    assert!(kinds.contains(&TokenKind::In));
    assert!(kinds.contains(&TokenKind::Trait));
    assert!(kinds.contains(&TokenKind::DoubleColon));
    assert!(kinds.contains(&TokenKind::Pass));
    assert!(kinds.contains(&TokenKind::True));
    assert!(kinds.contains(&TokenKind::PlusOrMinus));
    assert!(kinds.contains(&TokenKind::Plus));
    assert!(kinds.contains(&TokenKind::Minus));
    assert!(kinds.contains(&TokenKind::Star));
    assert!(kinds.contains(&TokenKind::Div));
    assert!(kinds.contains(&TokenKind::Power));
    assert!(kinds.contains(&TokenKind::GreaterEq));
    assert!(kinds.contains(&TokenKind::LessEq));
    assert!(kinds.contains(&TokenKind::Colon));
    assert!(kinds.contains(&TokenKind::OpenParen));
    assert!(kinds.contains(&TokenKind::CloseParen));
    assert!(kinds.contains(&TokenKind::OpenBracket));
    assert!(kinds.contains(&TokenKind::CloseBracket));
    assert!(kinds.contains(&TokenKind::LessThan));
    assert!(kinds.contains(&TokenKind::GreaterThan));
    assert!(kinds.contains(&TokenKind::Indent));
    assert!(kinds.contains(&TokenKind::Dedent));
    assert!(kinds.contains(&TokenKind::String));
    assert!(kinds.contains(&TokenKind::Number));
    assert!(kinds.contains(&TokenKind::Name));
    assert!(kinds.contains(&TokenKind::Newline));
    assert!(kinds.contains(&TokenKind::Eof));
}

#[test]
fn test_token_spans() {
    let source = "module M:\n    pin p";
    let (tokens, errors) = lex(source);

    assert!(errors.is_empty());

    // Find the 'module' token
    let module_token = tokens.iter().find(|t| t.kind == TokenKind::Module).unwrap();
    assert_eq!(module_token.span.line, 1);
    assert_eq!(module_token.span.column, 1);
    assert_eq!(module_token.span.start, 0);
    assert_eq!(module_token.span.end, 6);

    // Find 'pin' token (should be on line 2)
    let pin_token = tokens.iter().find(|t| t.kind == TokenKind::Pin).unwrap();
    assert_eq!(pin_token.span.line, 2);
}

#[test]
fn test_nested_indentation() {
    let source = r#"module A:
    module B:
        module C:
            pass
        pass
    pass
"#;

    let (tokens, errors) = lex(source);
    assert!(errors.is_empty(), "Errors: {:?}", errors);

    let indent_count = tokens.iter().filter(|t| t.kind == TokenKind::Indent).count();
    let dedent_count = tokens.iter().filter(|t| t.kind == TokenKind::Dedent).count();

    assert_eq!(indent_count, 3, "Should have 3 INDENT tokens");
    assert_eq!(dedent_count, 3, "Should have 3 DEDENT tokens");
}
