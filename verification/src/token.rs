//! Token types for the Ato language lexer.

use vstd::prelude::*;

verus! {

/// Source location span.
#[derive(Debug, Clone, Copy, PartialEq, Eq, Structural)]
pub struct Span {
    /// Byte offset of the start of the token.
    pub start: usize,
    /// Byte offset of the end of the token (exclusive).
    pub end: usize,
    /// Line number (1-indexed).
    pub line: usize,
    /// Column number (1-indexed).
    pub column: usize,
}

/// The span covering both `a` and `b`: the smaller start, the larger end,
/// the smaller line, and the column of whichever span starts on the earlier line
/// (the first one when both start on the same line).
pub open spec fn spec_merge(a: Span, b: Span) -> Span {
    Span {
        start: if a.start <= b.start { a.start } else { b.start },
        end: if a.end >= b.end { a.end } else { b.end },
        line: if a.line <= b.line { a.line } else { b.line },
        column: if a.line <= b.line { a.column } else { b.column },
    }
}

impl Span {
    pub fn new(start: usize, end: usize, line: usize, column: usize) -> (s: Self)
        ensures
            s == (Span { start, end, line, column }),
    {
        Span { start, end, line, column }
    }

    /// Create a span covering from self to other.
    pub fn merge(&self, other: &Span) -> (s: Span)
        ensures
            s == spec_merge(*self, *other),
    {
        Span {
            start: if self.start <= other.start { self.start } else { other.start },
            end: if self.end >= other.end { self.end } else { other.end },
            line: if self.line <= other.line { self.line } else { other.line },
            column: if self.line <= other.line { self.column } else { other.column },
        }
    }
}

impl Default for Span {
    /// The empty span at the first line and column.
    fn default() -> (s: Span)
        ensures
            s == (Span { start: 0, end: 0, line: 1, column: 1 }),
    {
        Span { start: 0, end: 0, line: 1, column: 1 }
    }
}

/// All token kinds in the Ato language.
#[derive(Debug, Clone, Copy, PartialEq, Eq, Hash, Structural)]
pub enum TokenKind {
    Component,
    Module,
    Interface,
    Pin,
    Signal,
    New,
    From,
    Import,
    For,
    In,
    Assert,
    To,
    True,
    False,
    Within,
    Is,
    Pass,
    Trait,
    Int,
    Float,
    StringKw,
    Str,
    Bytes,
    If,
    Parameter,
    Param,
    Test,
    Require,
    Requires,
    Check,
    Report,
    Ensure,
    Sperm,
    LSperm,
    Wire,
    Equals,
    NotEq,
    NotEqAlt,
    GreaterEq,
    LessEq,
    GreaterThan,
    LessThan,
    Assign,
    AddAssign,
    SubAssign,
    MultAssign,
    DivAssign,
    IDivAssign,
    PowerAssign,
    AtAssign,
    AndAssign,
    OrAssign,
    XorAssign,
    LeftShiftAssign,
    RightShiftAssign,
    Plus,
    Minus,
    Power,
    Star,
    IDiv,
    Div,
    Percent,
    OrOp,
    AndOp,
    Xor,
    LeftShift,
    RightShift,
    Arrow,
    DoubleColon,
    PlusOrMinus,
    OpenParen,
    CloseParen,
    OpenBracket,
    CloseBracket,
    OpenBrace,
    CloseBrace,
    Colon,
    Semicolon,
    Comma,
    Ellipsis,
    Dot,
    At,
    String,
    BytesLiteral,
    Number,
    ImagNumber,
    Name,
    Newline,
    Pragma,
    Comment,
    ExplicitLineJoining,
    Whitespace,
    Indent,
    Dedent,
    Eof,
    Error,
}

/// The keywords of the language.
pub open spec fn spec_is_keyword(k: TokenKind) -> bool {
    matches!(k, TokenKind::Component | TokenKind::Module | TokenKind::Interface | TokenKind::Pin | TokenKind::Signal | TokenKind::New | TokenKind::From | TokenKind::Import | TokenKind::For | TokenKind::In | TokenKind::Assert | TokenKind::To | TokenKind::True | TokenKind::False | TokenKind::Within | TokenKind::Is | TokenKind::Pass | TokenKind::Trait)
}

/// The reserved (unused) keywords of the language.
pub open spec fn spec_is_reserved(k: TokenKind) -> bool {
    matches!(k, TokenKind::Int | TokenKind::Float | TokenKind::StringKw | TokenKind::Str | TokenKind::Bytes | TokenKind::If | TokenKind::Parameter | TokenKind::Param | TokenKind::Test | TokenKind::Require | TokenKind::Requires | TokenKind::Check | TokenKind::Report | TokenKind::Ensure)
}

/// Kinds that the lexer consumes without emitting them.
pub open spec fn spec_is_hidden(k: TokenKind) -> bool {
    matches!(k, TokenKind::Comment | TokenKind::ExplicitLineJoining | TokenKind::Whitespace)
}

/// The display name of each token kind.
pub open spec fn spec_kind_name(k: TokenKind) -> Seq<char> {
    match k {
        TokenKind::Component => "component"@,
        TokenKind::Module => "module"@,
        TokenKind::Interface => "interface"@,
        TokenKind::Pin => "pin"@,
        TokenKind::Signal => "signal"@,
        TokenKind::New => "new"@,
        TokenKind::From => "from"@,
        TokenKind::Import => "import"@,
        TokenKind::For => "for"@,
        TokenKind::In => "in"@,
        TokenKind::Assert => "assert"@,
        TokenKind::To => "to"@,
        TokenKind::True => "True"@,
        TokenKind::False => "False"@,
        TokenKind::Within => "within"@,
        TokenKind::Is => "is"@,
        TokenKind::Pass => "pass"@,
        TokenKind::Trait => "trait"@,
        TokenKind::Int => "int"@,
        TokenKind::Float => "float"@,
        TokenKind::StringKw => "string"@,
        TokenKind::Str => "str"@,
        TokenKind::Bytes => "bytes"@,
        TokenKind::If => "if"@,
        TokenKind::Parameter => "parameter"@,
        TokenKind::Param => "param"@,
        TokenKind::Test => "test"@,
        TokenKind::Require => "require"@,
        TokenKind::Requires => "requires"@,
        TokenKind::Check => "check"@,
        TokenKind::Report => "report"@,
        TokenKind::Ensure => "ensure"@,
        TokenKind::Sperm => "~>"@,
        TokenKind::LSperm => "<~"@,
        TokenKind::Wire => "~"@,
        TokenKind::Equals => "=="@,
        TokenKind::NotEq => "!="@,
        TokenKind::NotEqAlt => "<>"@,
        TokenKind::GreaterEq => ">="@,
        TokenKind::LessEq => "<="@,
        TokenKind::GreaterThan => ">"@,
        TokenKind::LessThan => "<"@,
        TokenKind::Assign => "="@,
        TokenKind::AddAssign => "+="@,
        TokenKind::SubAssign => "-="@,
        TokenKind::MultAssign => "*="@,
        TokenKind::DivAssign => "/="@,
        TokenKind::IDivAssign => "//="@,
        TokenKind::PowerAssign => "**="@,
        TokenKind::AtAssign => "@="@,
        TokenKind::AndAssign => "&="@,
        TokenKind::OrAssign => "|="@,
        TokenKind::XorAssign => "^="@,
        TokenKind::LeftShiftAssign => "<<="@,
        TokenKind::RightShiftAssign => ">>="@,
        TokenKind::Plus => "+"@,
        TokenKind::Minus => "-"@,
        TokenKind::Power => "**"@,
        TokenKind::Star => "*"@,
        TokenKind::IDiv => "//"@,
        TokenKind::Div => "/"@,
        TokenKind::Percent => "%"@,
        TokenKind::OrOp => "|"@,
        TokenKind::AndOp => "&"@,
        TokenKind::Xor => "^"@,
        TokenKind::LeftShift => "<<"@,
        TokenKind::RightShift => ">>"@,
        TokenKind::Arrow => "->"@,
        TokenKind::DoubleColon => "::"@,
        TokenKind::PlusOrMinus => "+/-"@,
        TokenKind::OpenParen => "("@,
        TokenKind::CloseParen => ")"@,
        TokenKind::OpenBracket => "["@,
        TokenKind::CloseBracket => "]"@,
        TokenKind::OpenBrace => "{"@,
        TokenKind::CloseBrace => "}"@,
        TokenKind::Colon => ":"@,
        TokenKind::Semicolon => ";"@,
        TokenKind::Comma => ","@,
        TokenKind::Ellipsis => "..."@,
        TokenKind::Dot => "."@,
        TokenKind::At => "@"@,
        TokenKind::String => "STRING"@,
        TokenKind::BytesLiteral => "BYTES"@,
        TokenKind::Number => "NUMBER"@,
        TokenKind::ImagNumber => "IMAG_NUMBER"@,
        TokenKind::Name => "NAME"@,
        TokenKind::Newline => "NEWLINE"@,
        TokenKind::Pragma => "PRAGMA"@,
        TokenKind::Comment => "COMMENT"@,
        TokenKind::ExplicitLineJoining => "LINE_JOINING"@,
        TokenKind::Whitespace => "WS"@,
        TokenKind::Indent => "INDENT"@,
        TokenKind::Dedent => "DEDENT"@,
        TokenKind::Eof => "EOF"@,
        TokenKind::Error => "ERROR"@,
    }
}

/// The name of each kind as `Debug` prints it.
pub open spec fn spec_debug_name(k: TokenKind) -> Seq<char> {
    match k {
        TokenKind::Component => "Component"@,
        TokenKind::Module => "Module"@,
        TokenKind::Interface => "Interface"@,
        TokenKind::Pin => "Pin"@,
        TokenKind::Signal => "Signal"@,
        TokenKind::New => "New"@,
        TokenKind::From => "From"@,
        TokenKind::Import => "Import"@,
        TokenKind::For => "For"@,
        TokenKind::In => "In"@,
        TokenKind::Assert => "Assert"@,
        TokenKind::To => "To"@,
        TokenKind::True => "True"@,
        TokenKind::False => "False"@,
        TokenKind::Within => "Within"@,
        TokenKind::Is => "Is"@,
        TokenKind::Pass => "Pass"@,
        TokenKind::Trait => "Trait"@,
        TokenKind::Int => "Int"@,
        TokenKind::Float => "Float"@,
        TokenKind::StringKw => "StringKw"@,
        TokenKind::Str => "Str"@,
        TokenKind::Bytes => "Bytes"@,
        TokenKind::If => "If"@,
        TokenKind::Parameter => "Parameter"@,
        TokenKind::Param => "Param"@,
        TokenKind::Test => "Test"@,
        TokenKind::Require => "Require"@,
        TokenKind::Requires => "Requires"@,
        TokenKind::Check => "Check"@,
        TokenKind::Report => "Report"@,
        TokenKind::Ensure => "Ensure"@,
        TokenKind::Sperm => "Sperm"@,
        TokenKind::LSperm => "LSperm"@,
        TokenKind::Wire => "Wire"@,
        TokenKind::Equals => "Equals"@,
        TokenKind::NotEq => "NotEq"@,
        TokenKind::NotEqAlt => "NotEqAlt"@,
        TokenKind::GreaterEq => "GreaterEq"@,
        TokenKind::LessEq => "LessEq"@,
        TokenKind::GreaterThan => "GreaterThan"@,
        TokenKind::LessThan => "LessThan"@,
        TokenKind::Assign => "Assign"@,
        TokenKind::AddAssign => "AddAssign"@,
        TokenKind::SubAssign => "SubAssign"@,
        TokenKind::MultAssign => "MultAssign"@,
        TokenKind::DivAssign => "DivAssign"@,
        TokenKind::IDivAssign => "IDivAssign"@,
        TokenKind::PowerAssign => "PowerAssign"@,
        TokenKind::AtAssign => "AtAssign"@,
        TokenKind::AndAssign => "AndAssign"@,
        TokenKind::OrAssign => "OrAssign"@,
        TokenKind::XorAssign => "XorAssign"@,
        TokenKind::LeftShiftAssign => "LeftShiftAssign"@,
        TokenKind::RightShiftAssign => "RightShiftAssign"@,
        TokenKind::Plus => "Plus"@,
        TokenKind::Minus => "Minus"@,
        TokenKind::Power => "Power"@,
        TokenKind::Star => "Star"@,
        TokenKind::IDiv => "IDiv"@,
        TokenKind::Div => "Div"@,
        TokenKind::Percent => "Percent"@,
        TokenKind::OrOp => "OrOp"@,
        TokenKind::AndOp => "AndOp"@,
        TokenKind::Xor => "Xor"@,
        TokenKind::LeftShift => "LeftShift"@,
        TokenKind::RightShift => "RightShift"@,
        TokenKind::Arrow => "Arrow"@,
        TokenKind::DoubleColon => "DoubleColon"@,
        TokenKind::PlusOrMinus => "PlusOrMinus"@,
        TokenKind::OpenParen => "OpenParen"@,
        TokenKind::CloseParen => "CloseParen"@,
        TokenKind::OpenBracket => "OpenBracket"@,
        TokenKind::CloseBracket => "CloseBracket"@,
        TokenKind::OpenBrace => "OpenBrace"@,
        TokenKind::CloseBrace => "CloseBrace"@,
        TokenKind::Colon => "Colon"@,
        TokenKind::Semicolon => "Semicolon"@,
        TokenKind::Comma => "Comma"@,
        TokenKind::Ellipsis => "Ellipsis"@,
        TokenKind::Dot => "Dot"@,
        TokenKind::At => "At"@,
        TokenKind::String => "String"@,
        TokenKind::BytesLiteral => "BytesLiteral"@,
        TokenKind::Number => "Number"@,
        TokenKind::ImagNumber => "ImagNumber"@,
        TokenKind::Name => "Name"@,
        TokenKind::Newline => "Newline"@,
        TokenKind::Pragma => "Pragma"@,
        TokenKind::Comment => "Comment"@,
        TokenKind::ExplicitLineJoining => "ExplicitLineJoining"@,
        TokenKind::Whitespace => "Whitespace"@,
        TokenKind::Indent => "Indent"@,
        TokenKind::Dedent => "Dedent"@,
        TokenKind::Eof => "Eof"@,
        TokenKind::Error => "Error"@,
    }
}

impl TokenKind {
    /// The name of this kind as `Debug` prints it.
    pub fn debug_name(&self) -> (s: &'static str)
        ensures
            s@ == spec_debug_name(*self),
    {
        match self {
            TokenKind::Component => "Component",
            TokenKind::Module => "Module",
            TokenKind::Interface => "Interface",
            TokenKind::Pin => "Pin",
            TokenKind::Signal => "Signal",
            TokenKind::New => "New",
            TokenKind::From => "From",
            TokenKind::Import => "Import",
            TokenKind::For => "For",
            TokenKind::In => "In",
            TokenKind::Assert => "Assert",
            TokenKind::To => "To",
            TokenKind::True => "True",
            TokenKind::False => "False",
            TokenKind::Within => "Within",
            TokenKind::Is => "Is",
            TokenKind::Pass => "Pass",
            TokenKind::Trait => "Trait",
            TokenKind::Int => "Int",
            TokenKind::Float => "Float",
            TokenKind::StringKw => "StringKw",
            TokenKind::Str => "Str",
            TokenKind::Bytes => "Bytes",
            TokenKind::If => "If",
            TokenKind::Parameter => "Parameter",
            TokenKind::Param => "Param",
            TokenKind::Test => "Test",
            TokenKind::Require => "Require",
            TokenKind::Requires => "Requires",
            TokenKind::Check => "Check",
            TokenKind::Report => "Report",
            TokenKind::Ensure => "Ensure",
            TokenKind::Sperm => "Sperm",
            TokenKind::LSperm => "LSperm",
            TokenKind::Wire => "Wire",
            TokenKind::Equals => "Equals",
            TokenKind::NotEq => "NotEq",
            TokenKind::NotEqAlt => "NotEqAlt",
            TokenKind::GreaterEq => "GreaterEq",
            TokenKind::LessEq => "LessEq",
            TokenKind::GreaterThan => "GreaterThan",
            TokenKind::LessThan => "LessThan",
            TokenKind::Assign => "Assign",
            TokenKind::AddAssign => "AddAssign",
            TokenKind::SubAssign => "SubAssign",
            TokenKind::MultAssign => "MultAssign",
            TokenKind::DivAssign => "DivAssign",
            TokenKind::IDivAssign => "IDivAssign",
            TokenKind::PowerAssign => "PowerAssign",
            TokenKind::AtAssign => "AtAssign",
            TokenKind::AndAssign => "AndAssign",
            TokenKind::OrAssign => "OrAssign",
            TokenKind::XorAssign => "XorAssign",
            TokenKind::LeftShiftAssign => "LeftShiftAssign",
            TokenKind::RightShiftAssign => "RightShiftAssign",
            TokenKind::Plus => "Plus",
            TokenKind::Minus => "Minus",
            TokenKind::Power => "Power",
            TokenKind::Star => "Star",
            TokenKind::IDiv => "IDiv",
            TokenKind::Div => "Div",
            TokenKind::Percent => "Percent",
            TokenKind::OrOp => "OrOp",
            TokenKind::AndOp => "AndOp",
            TokenKind::Xor => "Xor",
            TokenKind::LeftShift => "LeftShift",
            TokenKind::RightShift => "RightShift",
            TokenKind::Arrow => "Arrow",
            TokenKind::DoubleColon => "DoubleColon",
            TokenKind::PlusOrMinus => "PlusOrMinus",
            TokenKind::OpenParen => "OpenParen",
            TokenKind::CloseParen => "CloseParen",
            TokenKind::OpenBracket => "OpenBracket",
            TokenKind::CloseBracket => "CloseBracket",
            TokenKind::OpenBrace => "OpenBrace",
            TokenKind::CloseBrace => "CloseBrace",
            TokenKind::Colon => "Colon",
            TokenKind::Semicolon => "Semicolon",
            TokenKind::Comma => "Comma",
            TokenKind::Ellipsis => "Ellipsis",
            TokenKind::Dot => "Dot",
            TokenKind::At => "At",
            TokenKind::String => "String",
            TokenKind::BytesLiteral => "BytesLiteral",
            TokenKind::Number => "Number",
            TokenKind::ImagNumber => "ImagNumber",
            TokenKind::Name => "Name",
            TokenKind::Newline => "Newline",
            TokenKind::Pragma => "Pragma",
            TokenKind::Comment => "Comment",
            TokenKind::ExplicitLineJoining => "ExplicitLineJoining",
            TokenKind::Whitespace => "Whitespace",
            TokenKind::Indent => "Indent",
            TokenKind::Dedent => "Dedent",
            TokenKind::Eof => "Eof",
            TokenKind::Error => "Error",
        }
    }

    /// Returns true if this token is a keyword.
    pub fn is_keyword(&self) -> (b: bool)
        ensures
            b == spec_is_keyword(*self),
    {
        matches!(*self, TokenKind::Component | TokenKind::Module | TokenKind::Interface | TokenKind::Pin | TokenKind::Signal | TokenKind::New | TokenKind::From | TokenKind::Import | TokenKind::For | TokenKind::In | TokenKind::Assert | TokenKind::To | TokenKind::True | TokenKind::False | TokenKind::Within | TokenKind::Is | TokenKind::Pass | TokenKind::Trait)
    }

    /// Returns true if this token is a reserved keyword.
    pub fn is_reserved(&self) -> (b: bool)
        ensures
            b == spec_is_reserved(*self),
    {
        matches!(*self, TokenKind::Int | TokenKind::Float | TokenKind::StringKw | TokenKind::Str | TokenKind::Bytes | TokenKind::If | TokenKind::Parameter | TokenKind::Param | TokenKind::Test | TokenKind::Require | TokenKind::Requires | TokenKind::Check | TokenKind::Report | TokenKind::Ensure)
    }

    /// Returns true if this is an opening bracket.
    pub fn is_open_bracket(&self) -> (b: bool)
        ensures
            b == (*self == TokenKind::OpenParen || *self == TokenKind::OpenBracket
                || *self == TokenKind::OpenBrace),
    {
        matches!(*self, TokenKind::OpenParen | TokenKind::OpenBracket | TokenKind::OpenBrace)
    }

    /// Returns true if this is a closing bracket.
    pub fn is_close_bracket(&self) -> (b: bool)
        ensures
            b == (*self == TokenKind::CloseParen || *self == TokenKind::CloseBracket
                || *self == TokenKind::CloseBrace),
    {
        matches!(*self, TokenKind::CloseParen | TokenKind::CloseBracket | TokenKind::CloseBrace)
    }

    /// Returns true if this token should be hidden (not emitted to token stream).
    pub fn is_hidden(&self) -> (b: bool)
        ensures
            b == spec_is_hidden(*self),
    {
        matches!(*self, TokenKind::Comment | TokenKind::ExplicitLineJoining | TokenKind::Whitespace)
    }

    /// Returns the name of this token kind.
    pub fn name(&self) -> (s: &'static str)
        ensures
            s@ == spec_kind_name(*self),
    {
        match *self {
            TokenKind::Component => "component",
            TokenKind::Module => "module",
            TokenKind::Interface => "interface",
            TokenKind::Pin => "pin",
            TokenKind::Signal => "signal",
            TokenKind::New => "new",
            TokenKind::From => "from",
            TokenKind::Import => "import",
            TokenKind::For => "for",
            TokenKind::In => "in",
            TokenKind::Assert => "assert",
            TokenKind::To => "to",
            TokenKind::True => "True",
            TokenKind::False => "False",
            TokenKind::Within => "within",
            TokenKind::Is => "is",
            TokenKind::Pass => "pass",
            TokenKind::Trait => "trait",
            TokenKind::Int => "int",
            TokenKind::Float => "float",
            TokenKind::StringKw => "string",
            TokenKind::Str => "str",
            TokenKind::Bytes => "bytes",
            TokenKind::If => "if",
            TokenKind::Parameter => "parameter",
            TokenKind::Param => "param",
            TokenKind::Test => "test",
            TokenKind::Require => "require",
            TokenKind::Requires => "requires",
            TokenKind::Check => "check",
            TokenKind::Report => "report",
            TokenKind::Ensure => "ensure",
            TokenKind::Sperm => "~>",
            TokenKind::LSperm => "<~",
            TokenKind::Wire => "~",
            TokenKind::Equals => "==",
            TokenKind::NotEq => "!=",
            TokenKind::NotEqAlt => "<>",
            TokenKind::GreaterEq => ">=",
            TokenKind::LessEq => "<=",
            TokenKind::GreaterThan => ">",
            TokenKind::LessThan => "<",
            TokenKind::Assign => "=",
            TokenKind::AddAssign => "+=",
            TokenKind::SubAssign => "-=",
            TokenKind::MultAssign => "*=",
            TokenKind::DivAssign => "/=",
            TokenKind::IDivAssign => "//=",
            TokenKind::PowerAssign => "**=",
            TokenKind::AtAssign => "@=",
            TokenKind::AndAssign => "&=",
            TokenKind::OrAssign => "|=",
            TokenKind::XorAssign => "^=",
            TokenKind::LeftShiftAssign => "<<=",
            TokenKind::RightShiftAssign => ">>=",
            TokenKind::Plus => "+",
            TokenKind::Minus => "-",
            TokenKind::Power => "**",
            TokenKind::Star => "*",
            TokenKind::IDiv => "//",
            TokenKind::Div => "/",
            TokenKind::Percent => "%",
            TokenKind::OrOp => "|",
            TokenKind::AndOp => "&",
            TokenKind::Xor => "^",
            TokenKind::LeftShift => "<<",
            TokenKind::RightShift => ">>",
            TokenKind::Arrow => "->",
            TokenKind::DoubleColon => "::",
            TokenKind::PlusOrMinus => "+/-",
            TokenKind::OpenParen => "(",
            TokenKind::CloseParen => ")",
            TokenKind::OpenBracket => "[",
            TokenKind::CloseBracket => "]",
            TokenKind::OpenBrace => "{",
            TokenKind::CloseBrace => "}",
            TokenKind::Colon => ":",
            TokenKind::Semicolon => ";",
            TokenKind::Comma => ",",
            TokenKind::Ellipsis => "...",
            TokenKind::Dot => ".",
            TokenKind::At => "@",
            TokenKind::String => "STRING",
            TokenKind::BytesLiteral => "BYTES",
            TokenKind::Number => "NUMBER",
            TokenKind::ImagNumber => "IMAG_NUMBER",
            TokenKind::Name => "NAME",
            TokenKind::Newline => "NEWLINE",
            TokenKind::Pragma => "PRAGMA",
            TokenKind::Comment => "COMMENT",
            TokenKind::ExplicitLineJoining => "LINE_JOINING",
            TokenKind::Whitespace => "WS",
            TokenKind::Indent => "INDENT",
            TokenKind::Dedent => "DEDENT",
            TokenKind::Eof => "EOF",
            TokenKind::Error => "ERROR",
        }
    }
}

/// A token with its kind, span, and text.
#[derive(Debug, Clone, PartialEq)]
pub struct Token {
    pub kind: TokenKind,
    pub span: Span,
    pub text: String,
}

/// A token as a mathematical value: its text as a character sequence.
pub struct TokenView {
    pub kind: TokenKind,
    pub span: Span,
    pub text: Seq<char>,
}

impl View for Token {
    type V = TokenView;

    open spec fn view(&self) -> TokenView {
        TokenView { kind: self.kind, span: self.span, text: self.text@ }
    }
}

impl Token {
    /// A copy of this token.
    pub fn duplicate(&self) -> (t: Token)
        ensures
            t@ == self@,
    {
        Token { kind: self.kind, span: self.span, text: self.text.clone() }
    }
}


/// The token kind that a kind name names, if any.
pub open spec fn kind_of_name(s: Seq<char>) -> Option<TokenKind> {
    if s == "component"@ {
        Some(TokenKind::Component)
    } else if s == "module"@ {
        Some(TokenKind::Module)
    } else if s == "interface"@ {
        Some(TokenKind::Interface)
    } else if s == "pin"@ {
        Some(TokenKind::Pin)
    } else if s == "signal"@ {
        Some(TokenKind::Signal)
    } else if s == "new"@ {
        Some(TokenKind::New)
    } else if s == "from"@ {
        Some(TokenKind::From)
    } else if s == "import"@ {
        Some(TokenKind::Import)
    } else if s == "for"@ {
        Some(TokenKind::For)
    } else if s == "in"@ {
        Some(TokenKind::In)
    } else if s == "assert"@ {
        Some(TokenKind::Assert)
    } else if s == "to"@ {
        Some(TokenKind::To)
    } else if s == "True"@ {
        Some(TokenKind::True)
    } else if s == "False"@ {
        Some(TokenKind::False)
    } else if s == "within"@ {
        Some(TokenKind::Within)
    } else if s == "is"@ {
        Some(TokenKind::Is)
    } else if s == "pass"@ {
        Some(TokenKind::Pass)
    } else if s == "trait"@ {
        Some(TokenKind::Trait)
    } else if s == "int"@ {
        Some(TokenKind::Int)
    } else if s == "float"@ {
        Some(TokenKind::Float)
    } else if s == "string"@ {
        Some(TokenKind::StringKw)
    } else if s == "str"@ {
        Some(TokenKind::Str)
    } else if s == "bytes"@ {
        Some(TokenKind::Bytes)
    } else if s == "if"@ {
        Some(TokenKind::If)
    } else if s == "parameter"@ {
        Some(TokenKind::Parameter)
    } else if s == "param"@ {
        Some(TokenKind::Param)
    } else if s == "test"@ {
        Some(TokenKind::Test)
    } else if s == "require"@ {
        Some(TokenKind::Require)
    } else if s == "requires"@ {
        Some(TokenKind::Requires)
    } else if s == "check"@ {
        Some(TokenKind::Check)
    } else if s == "report"@ {
        Some(TokenKind::Report)
    } else if s == "ensure"@ {
        Some(TokenKind::Ensure)
    } else if s == "~>"@ {
        Some(TokenKind::Sperm)
    } else if s == "<~"@ {
        Some(TokenKind::LSperm)
    } else if s == "~"@ {
        Some(TokenKind::Wire)
    } else if s == "=="@ {
        Some(TokenKind::Equals)
    } else if s == "!="@ {
        Some(TokenKind::NotEq)
    } else if s == "<>"@ {
        Some(TokenKind::NotEqAlt)
    } else if s == ">="@ {
        Some(TokenKind::GreaterEq)
    } else if s == "<="@ {
        Some(TokenKind::LessEq)
    } else if s == ">"@ {
        Some(TokenKind::GreaterThan)
    } else if s == "<"@ {
        Some(TokenKind::LessThan)
    } else if s == "="@ {
        Some(TokenKind::Assign)
    } else if s == "+="@ {
        Some(TokenKind::AddAssign)
    } else if s == "-="@ {
        Some(TokenKind::SubAssign)
    } else if s == "*="@ {
        Some(TokenKind::MultAssign)
    } else if s == "/="@ {
        Some(TokenKind::DivAssign)
    } else if s == "//="@ {
        Some(TokenKind::IDivAssign)
    } else if s == "**="@ {
        Some(TokenKind::PowerAssign)
    } else if s == "@="@ {
        Some(TokenKind::AtAssign)
    } else if s == "&="@ {
        Some(TokenKind::AndAssign)
    } else if s == "|="@ {
        Some(TokenKind::OrAssign)
    } else if s == "^="@ {
        Some(TokenKind::XorAssign)
    } else if s == "<<="@ {
        Some(TokenKind::LeftShiftAssign)
    } else if s == ">>="@ {
        Some(TokenKind::RightShiftAssign)
    } else if s == "+"@ {
        Some(TokenKind::Plus)
    } else if s == "-"@ {
        Some(TokenKind::Minus)
    } else if s == "**"@ {
        Some(TokenKind::Power)
    } else if s == "*"@ {
        Some(TokenKind::Star)
    } else if s == "//"@ {
        Some(TokenKind::IDiv)
    } else if s == "/"@ {
        Some(TokenKind::Div)
    } else if s == "%"@ {
        Some(TokenKind::Percent)
    } else if s == "|"@ {
        Some(TokenKind::OrOp)
    } else if s == "&"@ {
        Some(TokenKind::AndOp)
    } else if s == "^"@ {
        Some(TokenKind::Xor)
    } else if s == "<<"@ {
        Some(TokenKind::LeftShift)
    } else if s == ">>"@ {
        Some(TokenKind::RightShift)
    } else if s == "->"@ {
        Some(TokenKind::Arrow)
    } else if s == "::"@ {
        Some(TokenKind::DoubleColon)
    } else if s == "+/-"@ {
        Some(TokenKind::PlusOrMinus)
    } else if s == "("@ {
        Some(TokenKind::OpenParen)
    } else if s == ")"@ {
        Some(TokenKind::CloseParen)
    } else if s == "["@ {
        Some(TokenKind::OpenBracket)
    } else if s == "]"@ {
        Some(TokenKind::CloseBracket)
    } else if s == "{"@ {
        Some(TokenKind::OpenBrace)
    } else if s == "}"@ {
        Some(TokenKind::CloseBrace)
    } else if s == ":"@ {
        Some(TokenKind::Colon)
    } else if s == ";"@ {
        Some(TokenKind::Semicolon)
    } else if s == ","@ {
        Some(TokenKind::Comma)
    } else if s == "..."@ {
        Some(TokenKind::Ellipsis)
    } else if s == "."@ {
        Some(TokenKind::Dot)
    } else if s == "@"@ {
        Some(TokenKind::At)
    } else if s == "STRING"@ {
        Some(TokenKind::String)
    } else if s == "BYTES"@ {
        Some(TokenKind::BytesLiteral)
    } else if s == "NUMBER"@ {
        Some(TokenKind::Number)
    } else if s == "IMAG_NUMBER"@ {
        Some(TokenKind::ImagNumber)
    } else if s == "NAME"@ {
        Some(TokenKind::Name)
    } else if s == "NEWLINE"@ {
        Some(TokenKind::Newline)
    } else if s == "PRAGMA"@ {
        Some(TokenKind::Pragma)
    } else if s == "COMMENT"@ {
        Some(TokenKind::Comment)
    } else if s == "LINE_JOINING"@ {
        Some(TokenKind::ExplicitLineJoining)
    } else if s == "WS"@ {
        Some(TokenKind::Whitespace)
    } else if s == "INDENT"@ {
        Some(TokenKind::Indent)
    } else if s == "DEDENT"@ {
        Some(TokenKind::Dedent)
    } else if s == "EOF"@ {
        Some(TokenKind::Eof)
    } else if s == "ERROR"@ {
        Some(TokenKind::Error)
    } else {
        None
    }
}

/// Each token kind's name leads back to the kind.
#[verifier::spinoff_prover]
#[verifier::rlimit(100)]
proof fn lemma_kind_name_inverse(k: TokenKind)
    ensures
        kind_of_name(spec_kind_name(k)) == Some(k),
{
    reveal_strlit("component");
    assert("component"@.len() == 9 && "component"@[0] == 'c' && "component"@[1] == 'o' && "component"@[2] == 'm' && "component"@[3] == 'p' && "component"@[4] == 'o' && "component"@[5] == 'n' && "component"@[6] == 'e' && "component"@[7] == 'n' && "component"@[8] == 't');
    reveal_strlit("module");
    assert("module"@.len() == 6 && "module"@[0] == 'm' && "module"@[1] == 'o' && "module"@[2] == 'd' && "module"@[3] == 'u' && "module"@[4] == 'l' && "module"@[5] == 'e');
    reveal_strlit("interface");
    assert("interface"@.len() == 9 && "interface"@[0] == 'i' && "interface"@[1] == 'n' && "interface"@[2] == 't' && "interface"@[3] == 'e' && "interface"@[4] == 'r' && "interface"@[5] == 'f' && "interface"@[6] == 'a' && "interface"@[7] == 'c' && "interface"@[8] == 'e');
    reveal_strlit("pin");
    assert("pin"@.len() == 3 && "pin"@[0] == 'p' && "pin"@[1] == 'i' && "pin"@[2] == 'n');
    reveal_strlit("signal");
    assert("signal"@.len() == 6 && "signal"@[0] == 's' && "signal"@[1] == 'i' && "signal"@[2] == 'g' && "signal"@[3] == 'n' && "signal"@[4] == 'a' && "signal"@[5] == 'l');
    reveal_strlit("new");
    assert("new"@.len() == 3 && "new"@[0] == 'n' && "new"@[1] == 'e' && "new"@[2] == 'w');
    reveal_strlit("from");
    assert("from"@.len() == 4 && "from"@[0] == 'f' && "from"@[1] == 'r' && "from"@[2] == 'o' && "from"@[3] == 'm');
    reveal_strlit("import");
    assert("import"@.len() == 6 && "import"@[0] == 'i' && "import"@[1] == 'm' && "import"@[2] == 'p' && "import"@[3] == 'o' && "import"@[4] == 'r' && "import"@[5] == 't');
    reveal_strlit("for");
    assert("for"@.len() == 3 && "for"@[0] == 'f' && "for"@[1] == 'o' && "for"@[2] == 'r');
    reveal_strlit("in");
    assert("in"@.len() == 2 && "in"@[0] == 'i' && "in"@[1] == 'n');
    reveal_strlit("assert");
    assert("assert"@.len() == 6 && "assert"@[0] == 'a' && "assert"@[1] == 's' && "assert"@[2] == 's' && "assert"@[3] == 'e' && "assert"@[4] == 'r' && "assert"@[5] == 't');
    reveal_strlit("to");
    assert("to"@.len() == 2 && "to"@[0] == 't' && "to"@[1] == 'o');
    reveal_strlit("True");
    assert("True"@.len() == 4 && "True"@[0] == 'T' && "True"@[1] == 'r' && "True"@[2] == 'u' && "True"@[3] == 'e');
    reveal_strlit("False");
    assert("False"@.len() == 5 && "False"@[0] == 'F' && "False"@[1] == 'a' && "False"@[2] == 'l' && "False"@[3] == 's' && "False"@[4] == 'e');
    reveal_strlit("within");
    assert("within"@.len() == 6 && "within"@[0] == 'w' && "within"@[1] == 'i' && "within"@[2] == 't' && "within"@[3] == 'h' && "within"@[4] == 'i' && "within"@[5] == 'n');
    reveal_strlit("is");
    assert("is"@.len() == 2 && "is"@[0] == 'i' && "is"@[1] == 's');
    reveal_strlit("pass");
    assert("pass"@.len() == 4 && "pass"@[0] == 'p' && "pass"@[1] == 'a' && "pass"@[2] == 's' && "pass"@[3] == 's');
    reveal_strlit("trait");
    assert("trait"@.len() == 5 && "trait"@[0] == 't' && "trait"@[1] == 'r' && "trait"@[2] == 'a' && "trait"@[3] == 'i' && "trait"@[4] == 't');
    reveal_strlit("int");
    assert("int"@.len() == 3 && "int"@[0] == 'i' && "int"@[1] == 'n' && "int"@[2] == 't');
    reveal_strlit("float");
    assert("float"@.len() == 5 && "float"@[0] == 'f' && "float"@[1] == 'l' && "float"@[2] == 'o' && "float"@[3] == 'a' && "float"@[4] == 't');
    reveal_strlit("string");
    assert("string"@.len() == 6 && "string"@[0] == 's' && "string"@[1] == 't' && "string"@[2] == 'r' && "string"@[3] == 'i' && "string"@[4] == 'n' && "string"@[5] == 'g');
    reveal_strlit("str");
    assert("str"@.len() == 3 && "str"@[0] == 's' && "str"@[1] == 't' && "str"@[2] == 'r');
    reveal_strlit("bytes");
    assert("bytes"@.len() == 5 && "bytes"@[0] == 'b' && "bytes"@[1] == 'y' && "bytes"@[2] == 't' && "bytes"@[3] == 'e' && "bytes"@[4] == 's');
    reveal_strlit("if");
    assert("if"@.len() == 2 && "if"@[0] == 'i' && "if"@[1] == 'f');
    reveal_strlit("parameter");
    assert("parameter"@.len() == 9 && "parameter"@[0] == 'p' && "parameter"@[1] == 'a' && "parameter"@[2] == 'r' && "parameter"@[3] == 'a' && "parameter"@[4] == 'm' && "parameter"@[5] == 'e' && "parameter"@[6] == 't' && "parameter"@[7] == 'e' && "parameter"@[8] == 'r');
    reveal_strlit("param");
    assert("param"@.len() == 5 && "param"@[0] == 'p' && "param"@[1] == 'a' && "param"@[2] == 'r' && "param"@[3] == 'a' && "param"@[4] == 'm');
    reveal_strlit("test");
    assert("test"@.len() == 4 && "test"@[0] == 't' && "test"@[1] == 'e' && "test"@[2] == 's' && "test"@[3] == 't');
    reveal_strlit("require");
    assert("require"@.len() == 7 && "require"@[0] == 'r' && "require"@[1] == 'e' && "require"@[2] == 'q' && "require"@[3] == 'u' && "require"@[4] == 'i' && "require"@[5] == 'r' && "require"@[6] == 'e');
    reveal_strlit("requires");
    assert("requires"@.len() == 8 && "requires"@[0] == 'r' && "requires"@[1] == 'e' && "requires"@[2] == 'q' && "requires"@[3] == 'u' && "requires"@[4] == 'i' && "requires"@[5] == 'r' && "requires"@[6] == 'e' && "requires"@[7] == 's');
    reveal_strlit("check");
    assert("check"@.len() == 5 && "check"@[0] == 'c' && "check"@[1] == 'h' && "check"@[2] == 'e' && "check"@[3] == 'c' && "check"@[4] == 'k');
    reveal_strlit("report");
    assert("report"@.len() == 6 && "report"@[0] == 'r' && "report"@[1] == 'e' && "report"@[2] == 'p' && "report"@[3] == 'o' && "report"@[4] == 'r' && "report"@[5] == 't');
    reveal_strlit("ensure");
    assert("ensure"@.len() == 6 && "ensure"@[0] == 'e' && "ensure"@[1] == 'n' && "ensure"@[2] == 's' && "ensure"@[3] == 'u' && "ensure"@[4] == 'r' && "ensure"@[5] == 'e');
    reveal_strlit("~>");
    assert("~>"@.len() == 2 && "~>"@[0] == '~' && "~>"@[1] == '>');
    reveal_strlit("<~");
    assert("<~"@.len() == 2 && "<~"@[0] == '<' && "<~"@[1] == '~');
    reveal_strlit("~");
    assert("~"@.len() == 1 && "~"@[0] == '~');
    reveal_strlit("==");
    assert("=="@.len() == 2 && "=="@[0] == '=' && "=="@[1] == '=');
    reveal_strlit("!=");
    assert("!="@.len() == 2 && "!="@[0] == '!' && "!="@[1] == '=');
    reveal_strlit("<>");
    assert("<>"@.len() == 2 && "<>"@[0] == '<' && "<>"@[1] == '>');
    reveal_strlit(">=");
    assert(">="@.len() == 2 && ">="@[0] == '>' && ">="@[1] == '=');
    reveal_strlit("<=");
    assert("<="@.len() == 2 && "<="@[0] == '<' && "<="@[1] == '=');
    reveal_strlit(">");
    assert(">"@.len() == 1 && ">"@[0] == '>');
    reveal_strlit("<");
    assert("<"@.len() == 1 && "<"@[0] == '<');
    reveal_strlit("=");
    assert("="@.len() == 1 && "="@[0] == '=');
    reveal_strlit("+=");
    assert("+="@.len() == 2 && "+="@[0] == '+' && "+="@[1] == '=');
    reveal_strlit("-=");
    assert("-="@.len() == 2 && "-="@[0] == '-' && "-="@[1] == '=');
    reveal_strlit("*=");
    assert("*="@.len() == 2 && "*="@[0] == '*' && "*="@[1] == '=');
    reveal_strlit("/=");
    assert("/="@.len() == 2 && "/="@[0] == '/' && "/="@[1] == '=');
    reveal_strlit("//=");
    assert("//="@.len() == 3 && "//="@[0] == '/' && "//="@[1] == '/' && "//="@[2] == '=');
    reveal_strlit("**=");
    assert("**="@.len() == 3 && "**="@[0] == '*' && "**="@[1] == '*' && "**="@[2] == '=');
    reveal_strlit("@=");
    assert("@="@.len() == 2 && "@="@[0] == '@' && "@="@[1] == '=');
    reveal_strlit("&=");
    assert("&="@.len() == 2 && "&="@[0] == '&' && "&="@[1] == '=');
    reveal_strlit("|=");
    assert("|="@.len() == 2 && "|="@[0] == '|' && "|="@[1] == '=');
    reveal_strlit("^=");
    assert("^="@.len() == 2 && "^="@[0] == '^' && "^="@[1] == '=');
    reveal_strlit("<<=");
    assert("<<="@.len() == 3 && "<<="@[0] == '<' && "<<="@[1] == '<' && "<<="@[2] == '=');
    reveal_strlit(">>=");
    assert(">>="@.len() == 3 && ">>="@[0] == '>' && ">>="@[1] == '>' && ">>="@[2] == '=');
    reveal_strlit("+");
    assert("+"@.len() == 1 && "+"@[0] == '+');
    reveal_strlit("-");
    assert("-"@.len() == 1 && "-"@[0] == '-');
    reveal_strlit("**");
    assert("**"@.len() == 2 && "**"@[0] == '*' && "**"@[1] == '*');
    reveal_strlit("*");
    assert("*"@.len() == 1 && "*"@[0] == '*');
    reveal_strlit("//");
    assert("//"@.len() == 2 && "//"@[0] == '/' && "//"@[1] == '/');
    reveal_strlit("/");
    assert("/"@.len() == 1 && "/"@[0] == '/');
    reveal_strlit("%");
    assert("%"@.len() == 1 && "%"@[0] == '%');
    reveal_strlit("|");
    assert("|"@.len() == 1 && "|"@[0] == '|');
    reveal_strlit("&");
    assert("&"@.len() == 1 && "&"@[0] == '&');
    reveal_strlit("^");
    assert("^"@.len() == 1 && "^"@[0] == '^');
    reveal_strlit("<<");
    assert("<<"@.len() == 2 && "<<"@[0] == '<' && "<<"@[1] == '<');
    reveal_strlit(">>");
    assert(">>"@.len() == 2 && ">>"@[0] == '>' && ">>"@[1] == '>');
    reveal_strlit("->");
    assert("->"@.len() == 2 && "->"@[0] == '-' && "->"@[1] == '>');
    reveal_strlit("::");
    assert("::"@.len() == 2 && "::"@[0] == ':' && "::"@[1] == ':');
    reveal_strlit("+/-");
    assert("+/-"@.len() == 3 && "+/-"@[0] == '+' && "+/-"@[1] == '/' && "+/-"@[2] == '-');
    reveal_strlit("(");
    assert("("@.len() == 1 && "("@[0] == '(');
    reveal_strlit(")");
    assert(")"@.len() == 1 && ")"@[0] == ')');
    reveal_strlit("[");
    assert("["@.len() == 1 && "["@[0] == '[');
    reveal_strlit("]");
    assert("]"@.len() == 1 && "]"@[0] == ']');
    reveal_strlit("{");
    assert("{"@.len() == 1 && "{"@[0] == '{');
    reveal_strlit("}");
    assert("}"@.len() == 1 && "}"@[0] == '}');
    reveal_strlit(":");
    assert(":"@.len() == 1 && ":"@[0] == ':');
    reveal_strlit(";");
    assert(";"@.len() == 1 && ";"@[0] == ';');
    reveal_strlit(",");
    assert(","@.len() == 1 && ","@[0] == ',');
    reveal_strlit("...");
    assert("..."@.len() == 3 && "..."@[0] == '.' && "..."@[1] == '.' && "..."@[2] == '.');
    reveal_strlit(".");
    assert("."@.len() == 1 && "."@[0] == '.');
    reveal_strlit("@");
    assert("@"@.len() == 1 && "@"@[0] == '@');
    reveal_strlit("STRING");
    assert("STRING"@.len() == 6 && "STRING"@[0] == 'S' && "STRING"@[1] == 'T' && "STRING"@[2] == 'R' && "STRING"@[3] == 'I' && "STRING"@[4] == 'N' && "STRING"@[5] == 'G');
    reveal_strlit("BYTES");
    assert("BYTES"@.len() == 5 && "BYTES"@[0] == 'B' && "BYTES"@[1] == 'Y' && "BYTES"@[2] == 'T' && "BYTES"@[3] == 'E' && "BYTES"@[4] == 'S');
    reveal_strlit("NUMBER");
    assert("NUMBER"@.len() == 6 && "NUMBER"@[0] == 'N' && "NUMBER"@[1] == 'U' && "NUMBER"@[2] == 'M' && "NUMBER"@[3] == 'B' && "NUMBER"@[4] == 'E' && "NUMBER"@[5] == 'R');
    reveal_strlit("IMAG_NUMBER");
    assert("IMAG_NUMBER"@.len() == 11 && "IMAG_NUMBER"@[0] == 'I' && "IMAG_NUMBER"@[1] == 'M' && "IMAG_NUMBER"@[2] == 'A' && "IMAG_NUMBER"@[3] == 'G' && "IMAG_NUMBER"@[4] == '_' && "IMAG_NUMBER"@[5] == 'N' && "IMAG_NUMBER"@[6] == 'U' && "IMAG_NUMBER"@[7] == 'M' && "IMAG_NUMBER"@[8] == 'B' && "IMAG_NUMBER"@[9] == 'E' && "IMAG_NUMBER"@[10] == 'R');
    reveal_strlit("NAME");
    assert("NAME"@.len() == 4 && "NAME"@[0] == 'N' && "NAME"@[1] == 'A' && "NAME"@[2] == 'M' && "NAME"@[3] == 'E');
    reveal_strlit("NEWLINE");
    assert("NEWLINE"@.len() == 7 && "NEWLINE"@[0] == 'N' && "NEWLINE"@[1] == 'E' && "NEWLINE"@[2] == 'W' && "NEWLINE"@[3] == 'L' && "NEWLINE"@[4] == 'I' && "NEWLINE"@[5] == 'N' && "NEWLINE"@[6] == 'E');
    reveal_strlit("PRAGMA");
    assert("PRAGMA"@.len() == 6 && "PRAGMA"@[0] == 'P' && "PRAGMA"@[1] == 'R' && "PRAGMA"@[2] == 'A' && "PRAGMA"@[3] == 'G' && "PRAGMA"@[4] == 'M' && "PRAGMA"@[5] == 'A');
    reveal_strlit("COMMENT");
    assert("COMMENT"@.len() == 7 && "COMMENT"@[0] == 'C' && "COMMENT"@[1] == 'O' && "COMMENT"@[2] == 'M' && "COMMENT"@[3] == 'M' && "COMMENT"@[4] == 'E' && "COMMENT"@[5] == 'N' && "COMMENT"@[6] == 'T');
    reveal_strlit("LINE_JOINING");
    assert("LINE_JOINING"@.len() == 12 && "LINE_JOINING"@[0] == 'L' && "LINE_JOINING"@[1] == 'I' && "LINE_JOINING"@[2] == 'N' && "LINE_JOINING"@[3] == 'E' && "LINE_JOINING"@[4] == '_' && "LINE_JOINING"@[5] == 'J' && "LINE_JOINING"@[6] == 'O' && "LINE_JOINING"@[7] == 'I' && "LINE_JOINING"@[8] == 'N' && "LINE_JOINING"@[9] == 'I' && "LINE_JOINING"@[10] == 'N' && "LINE_JOINING"@[11] == 'G');
    reveal_strlit("WS");
    assert("WS"@.len() == 2 && "WS"@[0] == 'W' && "WS"@[1] == 'S');
    reveal_strlit("INDENT");
    assert("INDENT"@.len() == 6 && "INDENT"@[0] == 'I' && "INDENT"@[1] == 'N' && "INDENT"@[2] == 'D' && "INDENT"@[3] == 'E' && "INDENT"@[4] == 'N' && "INDENT"@[5] == 'T');
    reveal_strlit("DEDENT");
    assert("DEDENT"@.len() == 6 && "DEDENT"@[0] == 'D' && "DEDENT"@[1] == 'E' && "DEDENT"@[2] == 'D' && "DEDENT"@[3] == 'E' && "DEDENT"@[4] == 'N' && "DEDENT"@[5] == 'T');
    reveal_strlit("EOF");
    assert("EOF"@.len() == 3 && "EOF"@[0] == 'E' && "EOF"@[1] == 'O' && "EOF"@[2] == 'F');
    reveal_strlit("ERROR");
    assert("ERROR"@.len() == 5 && "ERROR"@[0] == 'E' && "ERROR"@[1] == 'R' && "ERROR"@[2] == 'R' && "ERROR"@[3] == 'O' && "ERROR"@[4] == 'R');
}

/// No two token kinds share a name.
pub proof fn lemma_kind_name_injective(k1: TokenKind, k2: TokenKind)
    requires
        spec_kind_name(k1) == spec_kind_name(k2),
    ensures
        k1 == k2,
{
    lemma_kind_name_inverse(k1);
    lemma_kind_name_inverse(k2);
}

} // verus!
