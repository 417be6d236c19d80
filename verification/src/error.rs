//! Errors of the Ato parser.

use vstd::prelude::*;
use crate::token::{Span, TokenKind, spec_debug_name};
use crate::token::TokenView;

verus! {

/// A parse error, with the span of the source it points at.
#[derive(Debug, Clone, PartialEq)]
pub enum ParseError {
    /// A token other than the expected one.
    UnexpectedToken { expected: String, found: TokenKind, span: Span },
    /// The end of the file where something else was expected.
    UnexpectedEof { expected: String, span: Span },
    /// Something else was expected here.
    Expected { expected: String, span: Span },
    /// A malformed number.
    InvalidNumber { span: Span },
    /// A missing indented block.
    InvalidIndentation { span: Span },
    /// `~>` and `<~` in one connection chain.
    MixedConnectionOperators { span: Span },
    /// A block with no statements.
    EmptyBlock { span: Span },
    /// An error of the lexer.
    LexerError { message: String, span: Span },
}

impl ParseError {
    /// An unexpected token error.
    pub fn unexpected_token(expected: &str, found: TokenKind, span: Span) -> (e: Self)
        ensures
            e matches ParseError::UnexpectedToken { expected: x, found: f, span: s }
                && x@ == expected@ && f == found && s == span,
    {
        ParseError::UnexpectedToken { expected: expected.to_owned(), found, span }
    }

    /// An unexpected end of file error.
    pub fn unexpected_eof(expected: &str, span: Span) -> (e: Self)
        ensures
            e matches ParseError::UnexpectedEof { expected: x, span: s } && x@ == expected@ && s == span,
    {
        ParseError::UnexpectedEof { expected: expected.to_owned(), span }
    }

    /// An "expected ..." error.
    pub fn expected(expected: &str, span: Span) -> (e: Self)
        ensures
            e matches ParseError::Expected { expected: x, span: s } && x@ == expected@ && s == span,
    {
        ParseError::Expected { expected: expected.to_owned(), span }
    }

    /// An invalid number error.
    pub fn invalid_number(span: Span) -> (e: Self)
        ensures
            e == (ParseError::InvalidNumber { span }),
    {
        ParseError::InvalidNumber { span }
    }

    /// An invalid indentation error.
    pub fn invalid_indentation(span: Span) -> (e: Self)
        ensures
            e == (ParseError::InvalidIndentation { span }),
    {
        ParseError::InvalidIndentation { span }
    }

    /// A mixed connection operators error.
    pub fn mixed_connection_operators(span: Span) -> (e: Self)
        ensures
            e == (ParseError::MixedConnectionOperators { span }),
    {
        ParseError::MixedConnectionOperators { span }
    }

    /// An empty block error.
    pub fn empty_block(span: Span) -> (e: Self)
        ensures
            e == (ParseError::EmptyBlock { span }),
    {
        ParseError::EmptyBlock { span }
    }

    /// A lexer error.
    pub fn lexer_error(message: &str, span: Span) -> (e: Self)
        ensures
            e matches ParseError::LexerError { message: m, span: s } && m@ == message@ && s == span,
    {
        ParseError::LexerError { message: message.to_owned(), span }
    }
}

/// `e` says that `what` was expected at `span`.
pub open spec fn is_expected(e: ParseError, what: Seq<char>, span: Span) -> bool {
    e matches ParseError::Expected { expected: x, span: s } && x@ == what && s == span
}

/// `e` is the error of expecting a token of `kind` where `at` stands: the end of the
/// file if `at` is the end-of-file token, an unexpected token otherwise.
pub open spec fn is_expect_error(e: ParseError, kind: TokenKind, at: TokenView) -> bool {
    if at.kind == TokenKind::Eof {
        e matches ParseError::UnexpectedEof { expected: x, span: s }
            && x@ == spec_debug_name(kind) && s == at.span
    } else {
        e matches ParseError::UnexpectedToken { expected: x, found: f, span: s }
            && x@ == spec_debug_name(kind) && f == at.kind && s == at.span
    }
}

/// The message of an error, as the parser's diagnostics word it.
pub open spec fn spec_message(e: ParseError) -> Seq<char> {
    match e {
        ParseError::UnexpectedToken { .. } => "unexpected token"@,
        ParseError::UnexpectedEof { .. } => "unexpected end of file"@,
        ParseError::Expected { expected, .. } => "expected "@ + expected@,
        ParseError::InvalidNumber { .. } => "invalid number literal"@,
        ParseError::InvalidIndentation { .. } => "invalid indentation"@,
        ParseError::MixedConnectionOperators { .. } => "mixed connection operators"@,
        ParseError::EmptyBlock { .. } => "empty block"@,
        ParseError::LexerError { message, .. } => "lexer error: "@ + message@,
    }
}

/// The hint that comes with an error, if it has one.
pub open spec fn spec_help(e: ParseError) -> Option<Seq<char>> {
    match e {
        ParseError::MixedConnectionOperators { .. } => Some("use either ~> or <~ consistently, not both"@),
        ParseError::EmptyBlock { .. } => Some("add a 'pass' statement if the block should be empty"@),
        _ => None,
    }
}

/// The span an error points at.
pub open spec fn spec_error_span(e: ParseError) -> Span {
    match e {
        ParseError::UnexpectedToken { span, .. } => span,
        ParseError::UnexpectedEof { span, .. } => span,
        ParseError::Expected { span, .. } => span,
        ParseError::InvalidNumber { span } => span,
        ParseError::InvalidIndentation { span } => span,
        ParseError::MixedConnectionOperators { span } => span,
        ParseError::EmptyBlock { span } => span,
        ParseError::LexerError { span, .. } => span,
    }
}

impl ParseError {
    /// The message of the error.
    pub fn message(&self) -> (s: String)
        ensures
            s@ == spec_message(*self),
    {
        match self {
            ParseError::UnexpectedToken { .. } => "unexpected token".to_owned(),
            ParseError::UnexpectedEof { .. } => "unexpected end of file".to_owned(),
            ParseError::Expected { expected, .. } => {
                let mut s = "expected ".to_owned();
                crate::text::push_str(&mut s, expected.as_str());
                s
            },
            ParseError::InvalidNumber { .. } => "invalid number literal".to_owned(),
            ParseError::InvalidIndentation { .. } => "invalid indentation".to_owned(),
            ParseError::MixedConnectionOperators { .. } => "mixed connection operators".to_owned(),
            ParseError::EmptyBlock { .. } => "empty block".to_owned(),
            ParseError::LexerError { message, .. } => {
                let mut s = "lexer error: ".to_owned();
                crate::text::push_str(&mut s, message.as_str());
                s
            },
        }
    }

    /// The hint that comes with the error, if it has one.
    pub fn help(&self) -> (h: Option<String>)
        ensures
            match spec_help(*self) {
                Some(t) => h matches Some(s) && s@ == t,
                None => h is None,
            },
    {
        match self {
            ParseError::MixedConnectionOperators { .. } => Some(
                "use either ~> or <~ consistently, not both".to_owned(),
            ),
            ParseError::EmptyBlock { .. } => Some("add a 'pass' statement if the block should be empty".to_owned()),
            _ => None,
        }
    }

    /// The span the error points at.
    pub fn span(&self) -> (s: Span)
        ensures
            s == spec_error_span(*self),
    {
        match self {
            ParseError::UnexpectedToken { span, .. } => *span,
            ParseError::UnexpectedEof { span, .. } => *span,
            ParseError::Expected { span, .. } => *span,
            ParseError::InvalidNumber { span } => *span,
            ParseError::InvalidIndentation { span } => *span,
            ParseError::MixedConnectionOperators { span } => *span,
            ParseError::EmptyBlock { span } => *span,
            ParseError::LexerError { span, .. } => *span,
        }
    }
}

} // verus!
