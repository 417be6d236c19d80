//! Recursive-descent parser for the Ato language.

use vstd::prelude::*;
use crate::ast::{File, Statement, PragmaStmt, ImportStmt, DepImportStmt, BlockDef, BlockKind, Assignment, AssignTarget, CumAssignment, CumOperator, SetAssignment, SetOperator, Assignable, Connection, DirectedConnection, ConnectionDirection, Connectable, Retype, Declaration, PinDeclaration, PinName, SignalDef, AssertStmt, Comparison, CompareOp, CompareOpKind, StringStmt, PassStmt, TraitStmt, ForStmt, Iterable, Expression, BinaryExpr, BinaryOp, UnaryExpr, UnaryOp, FunctionCall, Literal, NumberLiteral, StringLiteral, BoolLiteral, PhysicalLiteral, Quantity, QuantityRange, BilateralQuantity, Tolerance, NewExpr, Template, TemplateArg, FieldRef, FieldRefPart, TypeRef, Slice, Identifier};
use crate::error::{ParseError, is_expected, is_expect_error};
use crate::lexer::{lex, within_limits, spec_lex, lemma_lex_eof_last, lemma_lex_shape};
use crate::token::{Span, Token, TokenKind, TokenView, spec_merge};

verus! {

/// Kinds that can stand as an identifier: names, and the reserved words that
/// are only keywords in some places.
pub open spec fn is_ident_kind(k: TokenKind) -> bool {
    matches!(k, TokenKind::Name | TokenKind::Int | TokenKind::Float | TokenKind::StringKw
        | TokenKind::Str | TokenKind::Bytes | TokenKind::Parameter | TokenKind::Param
        | TokenKind::Test | TokenKind::Require | TokenKind::Requires | TokenKind::Check
        | TokenKind::Report | TokenKind::Ensure)
}

/// The span of the token before position `p`, or of the token at `p` when
/// there is none before it.
pub open spec fn prev_span(t: Seq<TokenView>, p: int) -> Span {
    if p > 0 { t[p - 1].span } else { t[p].span }
}

/// The span from the token at `p` to the token before `q`.
pub open spec fn span_between(t: Seq<TokenView>, p: int, q: int) -> Span {
    spec_merge(t[p].span, prev_span(t, q))
}

/// `id` holds the text and span of the token `tv`.
pub open spec fn ident_of(id: Identifier, tv: TokenView) -> bool {
    id.name@ == tv.text && id.span == tv.span
}

/// `n` holds the text and span of the token `tv`.
pub open spec fn number_of(n: NumberLiteral, tv: TokenView) -> bool {
    n.value@ == tv.text && n.span == tv.span
}

/// `s` holds the text and span of the token `tv`.
pub open spec fn string_of(s: StringLiteral, tv: TokenView) -> bool {
    s.value@ == tv.text && s.span == tv.span
}

/// Where and how a parse fails; the parser stops at the position the failure names.
pub enum Fail {
    /// `Expected { what }` at the token at `at`.
    Expected { what: Seq<char>, at: int },
    /// A token of `kind` was expected at `at`.
    Expect { kind: TokenKind, at: int },
    /// The connection operator at `at` points the other way from the first of its chain.
    Mixed { at: int },
}

impl Fail {
    pub open spec fn pos(self) -> int {
        match self {
            Fail::Expected { at, .. } => at,
            Fail::Expect { at, .. } => at,
            Fail::Mixed { at } => at,
        }
    }
}

/// `e` is the error that the failure `f` describes in the token stream `t`.
pub open spec fn fail_is(e: ParseError, f: Fail, t: Seq<TokenView>) -> bool {
    match f {
        Fail::Expected { what, at } => is_expected(e, what, t[at].span),
        Fail::Expect { kind, at } => is_expect_error(e, kind, t[at]),
        Fail::Mixed { at } => e == (ParseError::MixedConnectionOperators { span: t[at].span }),
    }
}

/// After an identifier, a dotted type reference goes on over `.name` pairs from `q`:
/// the position where it ends, or the failure at a dot that no identifier follows.
pub open spec fn dotted_end(t: Seq<TokenView>, q: int) -> Result<int, Fail>
    decreases t.len() - q,
{
    if 0 <= q < t.len() - 1 && t[q].kind == TokenKind::Dot {
        if is_ident_kind(t[q + 1].kind) {
            dotted_end(t, q + 2)
        } else {
            Err(Fail::Expected { what: "identifier"@, at: q + 1 })
        }
    } else {
        Ok(q)
    }
}

/// Where the type reference that starts at `p` ends, or how it fails.
pub open spec fn type_ref_end(t: Seq<TokenView>, p: int) -> Result<int, Fail> {
    if is_ident_kind(t[p].kind) {
        dotted_end(t, p + 1)
    } else {
        Err(Fail::Expected { what: "identifier"@, at: p })
    }
}

/// `tr` is the type reference written from `p` to `q`: the names at `p`, `p + 2`, ...
pub open spec fn type_ref_of(tr: TypeRef, t: Seq<TokenView>, p: int, q: int) -> bool {
    &&& tr.parts@.len() * 2 == q - p + 1
    &&& forall|i: int| 0 <= i < tr.parts@.len() ==> ident_of(#[trigger] tr.parts@[i], t[p + 2 * i])
    &&& tr.span == span_between(t, p, q)
}

/// Kinds that start a literal.
pub open spec fn is_literal_kind(k: TokenKind) -> bool {
    matches!(k, TokenKind::Number | TokenKind::String | TokenKind::True | TokenKind::False)
}

/// `l` is the literal that the token `tv` writes.
pub open spec fn literal_of(l: Literal, tv: TokenView) -> bool {
    match tv.kind {
        TokenKind::Number => l matches Literal::Number(n) && number_of(n, tv),
        TokenKind::String => l matches Literal::String(s) && string_of(s, tv),
        TokenKind::True => l == Literal::Bool(BoolLiteral { value: true, span: tv.span }),
        TokenKind::False => l == Literal::Bool(BoolLiteral { value: false, span: tv.span }),
        _ => false,
    }
}

/// Where the template argument `name = literal` that starts at `p` ends, or how it fails.
pub open spec fn arg_end(t: Seq<TokenView>, p: int) -> Result<int, Fail> {
    if !is_ident_kind(t[p].kind) {
        Err(Fail::Expected { what: "identifier"@, at: p })
    } else if t[p + 1].kind != TokenKind::Assign {
        Err(Fail::Expect { kind: TokenKind::Assign, at: p + 1 })
    } else if !is_literal_kind(t[p + 2].kind) {
        Err(Fail::Expected { what: "literal"@, at: p + 2 })
    } else {
        Ok(p + 3)
    }
}

/// `a` is the template argument written at `p`.
pub open spec fn arg_of(a: TemplateArg, t: Seq<TokenView>, p: int) -> bool {
    &&& ident_of(a.name, t[p])
    &&& literal_of(a.value, t[p + 2])
    &&& a.span == span_between(t, p, p + 3)
}

/// After a template argument, the list goes on over `, argument` from `q`, and may end
/// with a comma before `>`: where the list ends, or how it fails.
pub open spec fn args_end(t: Seq<TokenView>, q: int) -> Result<int, Fail>
    decreases t.len() + 4 - q,
{
    if 0 <= q < t.len() - 1 && t[q].kind == TokenKind::Comma {
        if t[q + 1].kind == TokenKind::GreaterThan {
            Ok(q + 1)
        } else {
            match arg_end(t, q + 1) {
                Ok(_) => args_end(t, q + 4),
                Err(f) => Err(f),
            }
        }
    } else {
        Ok(q)
    }
}

/// Where the arguments of the template whose `<` stands at `p` end (at the closing `>`
/// when the template is well formed), or how they fail.
pub open spec fn template_args_end(t: Seq<TokenView>, p: int) -> Result<int, Fail> {
    if t[p + 1].kind == TokenKind::GreaterThan {
        Ok(p + 1)
    } else {
        match arg_end(t, p + 1) {
            Ok(q) => args_end(t, q),
            Err(f) => Err(f),
        }
    }
}

/// Where the template `<name=value, ...>` that starts at `p` ends, or how it fails.
pub open spec fn template_end(t: Seq<TokenView>, p: int) -> Result<int, Fail> {
    if t[p].kind != TokenKind::LessThan {
        Err(Fail::Expect { kind: TokenKind::LessThan, at: p })
    } else {
        match template_args_end(t, p) {
            Ok(g) => if t[g].kind == TokenKind::GreaterThan {
                Ok(g + 1)
            } else {
                Err(Fail::Expect { kind: TokenKind::GreaterThan, at: g })
            },
            Err(f) => Err(f),
        }
    }
}

/// `tpl` is the template written from `p` to `q`: its arguments stand at `p + 1`, `p + 5`, ...
pub open spec fn template_of(tpl: Template, t: Seq<TokenView>, p: int, q: int) -> bool {
    &&& 4 * tpl.args@.len() + 1 <= q - p <= 4 * tpl.args@.len() + 2
    &&& forall|i: int| 0 <= i < tpl.args@.len() ==> arg_of(#[trigger] tpl.args@[i], t, p + 1 + 4 * i)
    &&& tpl.span == span_between(t, p, q)
}

/// Where the optional `[count]` after a type reference that ends at `q` ends, or how it fails.
pub open spec fn count_end(t: Seq<TokenView>, q: int) -> Result<int, Fail> {
    if t[q].kind == TokenKind::OpenBracket {
        if t[q + 1].kind != TokenKind::Number {
            Err(Fail::Expect { kind: TokenKind::Number, at: q + 1 })
        } else if t[q + 2].kind != TokenKind::CloseBracket {
            Err(Fail::Expect { kind: TokenKind::CloseBracket, at: q + 2 })
        } else {
            Ok(q + 3)
        }
    } else {
        Ok(q)
    }
}

/// Where the expression `new Type[count]<template>` that starts at `p` ends, or how it fails.
pub open spec fn new_end(t: Seq<TokenView>, p: int) -> Result<int, Fail> {
    if t[p].kind != TokenKind::New {
        Err(Fail::Expect { kind: TokenKind::New, at: p })
    } else {
        match type_ref_end(t, p + 1) {
            Ok(q) => match count_end(t, q) {
                Ok(q2) => if t[q2].kind == TokenKind::LessThan { template_end(t, q2) } else { Ok(q2) },
                Err(f) => Err(f),
            },
            Err(f) => Err(f),
        }
    }
}

/// `ne` is the `new` expression written from `p` to `end`.
pub open spec fn new_of(ne: NewExpr, t: Seq<TokenView>, p: int, end: int) -> bool {
    let q = type_ref_end(t, p + 1)->Ok_0;
    let q2 = count_end(t, q)->Ok_0;
    &&& type_ref_of(ne.type_ref, t, p + 1, q)
    &&& if t[q].kind == TokenKind::OpenBracket {
        ne.count matches Some(n) && number_of(n, t[q + 1])
    } else {
        ne.count is None
    }
    &&& if t[q2].kind == TokenKind::LessThan {
        ne.template matches Some(tpl) && template_of(tpl, t, q2, end)
    } else {
        ne.template is None
    }
    &&& ne.span == span_between(t, p, end)
}

/// The position of the number of a quantity that starts at `p`, after an optional sign.
pub open spec fn quantity_number_at(t: Seq<TokenView>, p: int) -> int {
    if t[p].kind == TokenKind::Minus || t[p].kind == TokenKind::Plus { p + 1 } else { p }
}

/// Where the quantity `[sign]number[unit]` that starts at `p` ends, or how it fails.
pub open spec fn quantity_end(t: Seq<TokenView>, p: int) -> Result<int, Fail> {
    let s = quantity_number_at(t, p);
    if t[s].kind != TokenKind::Number {
        Err(Fail::Expect { kind: TokenKind::Number, at: s })
    } else if t[s + 1].kind == TokenKind::Name {
        Ok(s + 2)
    } else {
        Ok(s + 1)
    }
}

/// `qv` is the quantity written from `p` to `end`: a minus sign goes into the number's
/// text, a plus sign is dropped, and a name right after the number is the unit.
pub open spec fn quantity_of(qv: Quantity, t: Seq<TokenView>, p: int, end: int) -> bool {
    let s = quantity_number_at(t, p);
    &&& qv.number.value@ == (if t[p].kind == TokenKind::Minus { seq!['-'] + t[s].text } else { t[s].text })
    &&& qv.number.span == t[s].span
    &&& if t[s + 1].kind == TokenKind::Name {
        qv.unit matches Some(u) && ident_of(u, t[s + 1])
    } else {
        qv.unit is None
    }
    &&& qv.span == span_between(t, p, end)
}

/// Where the tolerance `number[% | unit]` that starts at `p` ends, or how it fails.
pub open spec fn tolerance_end(t: Seq<TokenView>, p: int) -> Result<int, Fail> {
    if t[p].kind != TokenKind::Number {
        Err(Fail::Expect { kind: TokenKind::Number, at: p })
    } else if t[p + 1].kind == TokenKind::Percent || t[p + 1].kind == TokenKind::Name {
        Ok(p + 2)
    } else {
        Ok(p + 1)
    }
}

/// `tol` is the tolerance written from `p` to `end`.
pub open spec fn tolerance_of(tol: Tolerance, t: Seq<TokenView>, p: int, end: int) -> bool {
    &&& tol.value@ == t[p].text
    &&& tol.is_percent == (t[p + 1].kind == TokenKind::Percent)
    &&& if t[p + 1].kind == TokenKind::Name {
        tol.unit matches Some(u) && ident_of(u, t[p + 1])
    } else {
        tol.unit is None
    }
    &&& tol.span == span_between(t, p, end)
}

/// Where the physical literal (a quantity, a range `a to b`, or `a +/- tolerance`)
/// that starts at `p` ends, or how it fails.
pub open spec fn physical_end(t: Seq<TokenView>, p: int) -> Result<int, Fail> {
    match quantity_end(t, p) {
        Ok(q) => if t[q].kind == TokenKind::To {
            quantity_end(t, q + 1)
        } else if t[q].kind == TokenKind::PlusOrMinus {
            tolerance_end(t, q + 1)
        } else {
            Ok(q)
        },
        Err(f) => Err(f),
    }
}

/// `pl` is the physical literal written from `p` to `end`.
pub open spec fn physical_of(pl: PhysicalLiteral, t: Seq<TokenView>, p: int, end: int) -> bool {
    let q = quantity_end(t, p)->Ok_0;
    if t[q].kind == TokenKind::To {
        pl matches PhysicalLiteral::Range(r) && quantity_of(r.from, t, p, q)
            && quantity_of(r.to, t, q + 1, end) && r.span == span_between(t, p, end)
    } else if t[q].kind == TokenKind::PlusOrMinus {
        pl matches PhysicalLiteral::Bilateral(b) && quantity_of(b.base, t, p, q)
            && tolerance_of(b.tolerance, t, q + 1, end) && b.span == span_between(t, p, end)
    } else {
        pl matches PhysicalLiteral::Quantity(qv) && quantity_of(qv, t, p, end)
    }
}

/// The position after an optional number at `q`.
pub open spec fn opt_number(t: Seq<TokenView>, q: int) -> int {
    if t[q].kind == TokenKind::Number { q + 1 } else { q }
}

/// Where the bounds of the slice whose `[` stands at `p` end: `::step`, or
/// `start:stop:step` with every part optional.
pub open spec fn slice_inner_end(t: Seq<TokenView>, p: int) -> int {
    if t[p + 1].kind == TokenKind::DoubleColon {
        opt_number(t, p + 2)
    } else {
        let a = opt_number(t, p + 1);
        if t[a].kind == TokenKind::Colon {
            let b = opt_number(t, a + 1);
            if t[b].kind == TokenKind::Colon { opt_number(t, b + 1) } else { b }
        } else {
            a
        }
    }
}

/// Where the slice `[start:stop:step]` that starts at `p` ends, or how it fails.
pub open spec fn slice_end(t: Seq<TokenView>, p: int) -> Result<int, Fail> {
    if t[p].kind != TokenKind::OpenBracket {
        Err(Fail::Expect { kind: TokenKind::OpenBracket, at: p })
    } else {
        let q = slice_inner_end(t, p);
        if t[q].kind == TokenKind::CloseBracket {
            Ok(q + 1)
        } else {
            Err(Fail::Expect { kind: TokenKind::CloseBracket, at: q })
        }
    }
}

/// `o` is the optional number at `q`.
pub open spec fn opt_number_of(o: Option<NumberLiteral>, t: Seq<TokenView>, q: int) -> bool {
    if t[q].kind == TokenKind::Number {
        o matches Some(n) && number_of(n, t[q])
    } else {
        o is None
    }
}

/// `s` is the slice written from `p` to `end`.
pub open spec fn slice_of(s: Slice, t: Seq<TokenView>, p: int, end: int) -> bool {
    &&& if t[p + 1].kind == TokenKind::DoubleColon {
        s.start is None && s.stop is None && opt_number_of(s.step, t, p + 2)
    } else {
        let a = opt_number(t, p + 1);
        &&& opt_number_of(s.start, t, p + 1)
        &&& if t[a].kind == TokenKind::Colon {
            let b = opt_number(t, a + 1);
            &&& opt_number_of(s.stop, t, a + 1)
            &&& if t[b].kind == TokenKind::Colon {
                opt_number_of(s.step, t, b + 1)
            } else {
                s.step is None
            }
        } else {
            s.stop is None && s.step is None
        }
    }
    &&& s.span == span_between(t, p, end)
}


/// Where the field-reference part (a name and an optional `[number]`) that starts at `p`
/// ends, or how it fails.
pub open spec fn part_end(t: Seq<TokenView>, p: int) -> Result<int, Fail> {
    if !is_ident_kind(t[p].kind) {
        Err(Fail::Expected { what: "identifier"@, at: p })
    } else if t[p + 1].kind == TokenKind::OpenBracket {
        if t[p + 2].kind != TokenKind::Number {
            Err(Fail::Expect { kind: TokenKind::Number, at: p + 2 })
        } else if t[p + 3].kind != TokenKind::CloseBracket {
            Err(Fail::Expect { kind: TokenKind::CloseBracket, at: p + 3 })
        } else {
            Ok(p + 4)
        }
    } else {
        Ok(p + 1)
    }
}

/// `part` is the field-reference part written at `p`.
pub open spec fn part_of(part: FieldRefPart, t: Seq<TokenView>, p: int) -> bool {
    &&& ident_of(part.name, t[p])
    &&& if t[p + 1].kind == TokenKind::OpenBracket {
        part.index matches Some(n) && number_of(n, t[p + 2]) && part.span == span_between(t, p, p + 4)
    } else {
        part.index is None && part.span == span_between(t, p, p + 1)
    }
}

/// After a part that ends at `q`, a field reference goes on over `.part`, and ends at a
/// `.number` pin reference or at anything but a dot: where it ends, or how it fails.
pub open spec fn fref_rest(t: Seq<TokenView>, q: int) -> Result<int, Fail>
    decreases t.len() + 4 - q,
{
    if 0 <= q < t.len() - 1 && t[q].kind == TokenKind::Dot {
        if t[q + 1].kind == TokenKind::Number {
            Ok(q + 2)
        } else {
            match part_end(t, q + 1) {
                Ok(q2) => if q < q2 <= q + 5 { fref_rest(t, q2) } else { Ok(q2) },
                Err(f) => Err(f),
            }
        }
    } else {
        Ok(q)
    }
}

/// The positions of the parts that follow a part ending at `q`.
pub open spec fn fref_rest_starts(t: Seq<TokenView>, q: int) -> Seq<int>
    decreases t.len() + 4 - q,
{
    if 0 <= q < t.len() - 1 && t[q].kind == TokenKind::Dot && t[q + 1].kind != TokenKind::Number {
        match part_end(t, q + 1) {
            Ok(q2) => if q < q2 <= q + 5 { seq![q + 1] + fref_rest_starts(t, q2) } else { seq![q + 1] },
            Err(_) => seq![],
        }
    } else {
        seq![]
    }
}

/// Where the field reference that starts at `p` ends, or how it fails.
pub open spec fn fref_end(t: Seq<TokenView>, p: int) -> Result<int, Fail> {
    match part_end(t, p) {
        Ok(q) => fref_rest(t, q),
        Err(f) => Err(f),
    }
}

/// `fr` is the field reference written from `p` to `end`: its parts stand at `p` and at
/// the positions that follow, and it ends with a pin number when its last token is one.
pub open spec fn fref_of(fr: FieldRef, t: Seq<TokenView>, p: int, end: int) -> bool {
    let starts = seq![p] + fref_rest_starts(t, part_end(t, p)->Ok_0);
    &&& fr.parts@.len() == starts.len()
    &&& forall|i: int| 0 <= i < starts.len() ==> part_of(#[trigger] fr.parts@[i], t, starts[i])
    &&& if t[end - 1].kind == TokenKind::Number {
        fr.pin_ref matches Some(n) && number_of(n, t[end - 1])
    } else {
        fr.pin_ref is None
    }
    &&& fr.span == span_between(t, p, end)
}

/// A field reference never ends before the part it follows.
pub proof fn lemma_fref_rest_ge(t: Seq<TokenView>, q: int)
    ensures
        fref_rest(t, q) matches Ok(e) ==> e >= q,
        fref_rest(t, q) matches Err(f) ==> f.pos() > q,
    decreases t.len() + 4 - q,
{
    if 0 <= q < t.len() - 1 && t[q].kind == TokenKind::Dot && t[q + 1].kind != TokenKind::Number {
        if let Ok(q2) = part_end(t, q + 1) {
            if q < q2 <= q + 5 {
                lemma_fref_rest_ge(t, q2);
            }
        }
    }
}

/// A dotted type reference never ends before the name it follows.
pub proof fn lemma_dotted_end_ge(t: Seq<TokenView>, q: int)
    ensures
        dotted_end(t, q) matches Ok(e) ==> e >= q,
        dotted_end(t, q) matches Err(f) ==> f.pos() > q,
    decreases t.len() - q,
{
    if 0 <= q < t.len() - 1 && t[q].kind == TokenKind::Dot && is_ident_kind(t[q + 1].kind) {
        lemma_dotted_end_ge(t, q + 2);
    }
}

/// Kinds that can start an expression.
pub open spec fn starts_expression(k: TokenKind) -> bool {
    matches!(k, TokenKind::OpenParen | TokenKind::Number | TokenKind::Plus | TokenKind::Minus
        | TokenKind::Name | TokenKind::String | TokenKind::True | TokenKind::False)
}

/// The operator token of a binary operator.
pub open spec fn op_token(op: BinaryOp) -> TokenKind {
    match op {
        BinaryOp::Add => TokenKind::Plus,
        BinaryOp::Sub => TokenKind::Minus,
        BinaryOp::Mul => TokenKind::Star,
        BinaryOp::Div => TokenKind::Div,
        BinaryOp::Power => TokenKind::Power,
        BinaryOp::BitOr => TokenKind::OrOp,
        BinaryOp::BitAnd => TokenKind::AndOp,
    }
}

/// Whether a binary operator joins operands at a precedence level: bitwise (3),
/// additive (2) or multiplicative (1).
pub open spec fn op_at_level(op: BinaryOp, level: int) -> bool {
    match op {
        BinaryOp::BitOr | BinaryOp::BitAnd => level == 3,
        BinaryOp::Add | BinaryOp::Sub => level == 2,
        BinaryOp::Mul | BinaryOp::Div => level == 1,
        BinaryOp::Power => false,
    }
}

/// Whether a token is an operator of a precedence level.
pub open spec fn token_at_level(k: TokenKind, level: int) -> bool {
    if level == 3 {
        k == TokenKind::OrOp || k == TokenKind::AndOp
    } else if level == 2 {
        k == TokenKind::Plus || k == TokenKind::Minus
    } else {
        k == TokenKind::Star || k == TokenKind::Div
    }
}

/// Where the expression `e`, read as derived from the tokens from `p` on at a
/// precedence level, ends; or `None` when the tokens do not derive it there.
/// Level 4 is a whole arithmetic expression; 3, 2 and 1 join operands of the
/// level below with `|` and `&`, `+` and `-`, `*` and `/`, to the left, each
/// operand whole (followed by no operator of its own level); 0 is a power
/// `f ** f` or a single function call or atom; -1 a function call
/// `name(atom atom ...)` or an atom; -2 an atom.
pub open spec fn expr_parse(e: Expression, t: Seq<TokenView>, p: int, level: int) -> Option<int>
    decreases e, level + 3,
{
    if level >= 4 {
        match expr_parse(e, t, p, 3) {
            Some(q) => if !token_at_level(t[q].kind, 3) { Some(q) } else { None },
            None => None,
        }
    } else if level >= 1 {
        if e is Binary && op_at_level(e->Binary_0.operator, level) {
            let b = e->Binary_0;
            match expr_parse(b.left, t, p, level) {
                Some(m) => if t[m].kind == op_token(b.operator) {
                    match expr_parse(b.right, t, m + 1, level - 1) {
                        Some(q) => if b.span == span_between(t, p, q)
                            && (level - 1 >= 1 ==> !token_at_level(t[q].kind, level - 1)) {
                            Some(q)
                        } else {
                            None
                        },
                        None => None,
                    }
                } else {
                    None
                },
                None => None,
            }
        } else {
            match expr_parse(e, t, p, level - 1) {
                Some(q) => if level - 1 >= 1 ==> !token_at_level(t[q].kind, level - 1) { Some(q) } else { None },
                None => None,
            }
        }
    } else if level == 0 {
        if e is Binary && e->Binary_0.operator == BinaryOp::Power {
            let b = e->Binary_0;
            match expr_parse(b.left, t, p, -1) {
                Some(m) => if t[m].kind == TokenKind::Power {
                    match expr_parse(b.right, t, m + 1, -1) {
                        Some(q) => if b.span == span_between(t, p, q) { Some(q) } else { None },
                        None => None,
                    }
                } else {
                    None
                },
                None => None,
            }
        } else {
            match expr_parse(e, t, p, -1) {
                Some(q) => if t[q].kind != TokenKind::Power { Some(q) } else { None },
                None => None,
            }
        }
    } else if level == -1 {
        if t[p].kind == TokenKind::Name && t[p + 1].kind == TokenKind::OpenParen {
            if e is FunctionCall && ident_of(e->FunctionCall_0.name, t[p]) {
                let c = e->FunctionCall_0;
                match args_parse(c.args@, t, p + 2) {
                    Some(m) => if t[m].kind == TokenKind::CloseParen && c.span == span_between(t, p, m + 1) {
                        Some(m + 1)
                    } else {
                        None
                    },
                    None => None,
                }
            } else {
                None
            }
        } else {
            expr_parse(e, t, p, -2)
        }
    } else if level == -2 {
        atom_parse(e, t, p)
    } else {
        None
    }
}

/// Where the atoms `args`, one after another from `p`, end.
pub open spec fn args_parse(args: Seq<Expression>, t: Seq<TokenView>, p: int) -> Option<int>
    decreases args, 0int,
{
    if args.len() == 0 {
        Some(p)
    } else {
        match args_parse(args.drop_last(), t, p) {
            Some(m) => atom_parse(args.last(), t, m),
            None => None,
        }
    }
}

/// Where the atom `e`, from `p`, ends: a parenthesised expression, a physical
/// literal, a signed atom, a field reference, a string or a boolean.
pub open spec fn atom_parse(e: Expression, t: Seq<TokenView>, p: int) -> Option<int>
    decreases e, 0int,
{
    match e {
        Expression::Group(inner) => if t[p].kind == TokenKind::OpenParen {
            match expr_parse(*inner, t, p + 1, 4) {
                Some(m) => if t[m].kind == TokenKind::CloseParen { Some(m + 1) } else { None },
                None => None,
            }
        } else {
            None
        },
        Expression::Literal(Literal::Physical(pl)) => if t[p].kind == TokenKind::Number {
            match physical_end(t, p) {
                Ok(q) => if physical_of(pl, t, p, q) { Some(q) } else { None },
                Err(_) => None,
            }
        } else {
            None
        },
        Expression::Literal(Literal::String(s)) => if t[p].kind == TokenKind::String && string_of(s, t[p]) {
            Some(p + 1)
        } else {
            None
        },
        Expression::Literal(Literal::Bool(b)) => if b.span == t[p].span
            && ((t[p].kind == TokenKind::True && b.value) || (t[p].kind == TokenKind::False && !b.value)) {
            Some(p + 1)
        } else {
            None
        },
        Expression::FieldRef(fr) => if t[p].kind == TokenKind::Name {
            match fref_end(t, p) {
                Ok(q) => if fref_of(fr, t, p, q) { Some(q) } else { None },
                Err(_) => None,
            }
        } else {
            None
        },
        Expression::Unary(u) => if (t[p].kind == TokenKind::Plus && u.operator == UnaryOp::Pos)
            || (t[p].kind == TokenKind::Minus && u.operator == UnaryOp::Neg) {
            let inner = if t[p + 1].kind == TokenKind::Number {
                match u.operand {
                    Expression::Literal(Literal::Physical(pl)) => match physical_end(t, p + 1) {
                        Ok(q) => if physical_of(pl, t, p + 1, q) { Some(q) } else { None },
                        Err(_) => None,
                    },
                    _ => None,
                }
            } else {
                atom_parse(u.operand, t, p + 1)
            };
            match inner {
                Some(q) => if u.span == span_between(t, p, q) { Some(q) } else { None },
                None => None,
            }
        } else {
            None
        },
        _ => None,
    }
}

/// The rank of a binary operator: 3 for `|` and `&`, 2 for `+` and `-`, 1 for
/// `*` and `/`, 0 for `**`.
pub open spec fn op_rank(op: BinaryOp) -> int {
    match op {
        BinaryOp::BitOr | BinaryOp::BitAnd => 3,
        BinaryOp::Add | BinaryOp::Sub => 2,
        BinaryOp::Mul | BinaryOp::Div => 1,
        BinaryOp::Power => 0,
    }
}

/// An expression derived at a level below 4 is a binary expression only of an
/// operator of that level or lower, and none at all below level 0.
pub proof fn lemma_parse_rank(e: Expression, t: Seq<TokenView>, p: int, level: int)
    requires
        level <= 3,
        expr_parse(e, t, p, level) is Some,
        e is Binary,
    ensures
        level >= 0,
        op_rank(e->Binary_0.operator) <= level,
    decreases level + 3,
{
    if level >= 1 {
        if !op_at_level(e->Binary_0.operator, level) {
            lemma_parse_rank(e, t, p, level - 1);
        }
    } else if level == 0 {
        if e->Binary_0.operator != BinaryOp::Power {
            lemma_parse_rank(e, t, p, -1);
        }
    } else if level == -1 {
        if !(t[p].kind == TokenKind::Name && t[p + 1].kind == TokenKind::OpenParen) {
            assert(expr_parse(e, t, p, -1) == expr_parse(e, t, p, -2));
            assert(expr_parse(e, t, p, -2) == atom_parse(e, t, p));
            assert(atom_parse(e, t, p) is None);
        }
    } else if level == -2 {
        assert(atom_parse(e, t, p) is None);
    }
}

/// `e` is the expression derived from the tokens `p..q` at a precedence level.
pub open spec fn expr_is(e: Expression, t: Seq<TokenView>, p: int, q: int, level: int) -> bool {
    expr_parse(e, t, p, level) == Some(q)
}

/// `args` are atoms derived one after another from the tokens `p..q`.
pub open spec fn args_are(args: Seq<Expression>, t: Seq<TokenView>, p: int, q: int) -> bool {
    args_parse(args, t, p) == Some(q)
}

/// `e` is the atom derived from the tokens `p..q`.
pub open spec fn atom_is(e: Expression, t: Seq<TokenView>, p: int, q: int) -> bool {
    atom_parse(e, t, p) == Some(q)
}

/// Where the type references `refs`, the first from `p` and each further one
/// after a comma, end.
pub open spec fn type_refs_parse(refs: Seq<TypeRef>, t: Seq<TokenView>, p: int) -> Option<int>
    decreases refs.len(),
{
    if refs.len() == 0 {
        None
    } else if refs.len() == 1 {
        match type_ref_end(t, p) {
            Ok(q) => if type_ref_of(refs[0], t, p, q) { Some(q) } else { None },
            Err(_) => None,
        }
    } else {
        match type_refs_parse(refs.drop_last(), t, p) {
            Some(m) => if t[m].kind == TokenKind::Comma {
                match type_ref_end(t, m + 1) {
                    Ok(q) => if type_ref_of(refs.last(), t, m + 1, q) { Some(q) } else { None },
                    Err(_) => None,
                }
            } else {
                None
            },
            None => None,
        }
    }
}

/// What a parse from `p` that stopped at `stop` gives, for a statement that starts
/// with a name: the field reference, then, by the token after it, a declaration,
/// an assignment, a connection, a chain or a retype, each with what follows it
/// derived from the tokens.
pub open spec fn name_stmt_res(t: Seq<TokenView>, p: int, stop: int, r: Result<Statement, ParseError>) -> bool {
    match fref_end(t, p) {
        Err(f) => r matches Err(e) && fail_is(e, f, t) && stop == f.pos(),
        Ok(q) => match t[q].kind {
            TokenKind::Colon => if !is_ident_kind(t[q + 1].kind) {
                r matches Err(e) && is_expected(e, "identifier"@, t[q + 1].span)
                    && stop == q + 1
            } else if t[q + 2].kind == TokenKind::Assign {
                r is Ok ==> (r->Ok_0 matches Statement::Assignment(a)
                    && a.target matches AssignTarget::Declaration(d)
                    && fref_of(d.field, t, p, q)
                    && ident_of(d.type_info, t[q + 1])
                    && d.span == span_between(t, p, q + 2)
                    && assignable_parse(a.value, t, q + 3) == Some(stop)
                    && a.span == span_between(t, p, stop))
            } else {
                r matches Ok(Statement::Declaration(d)) && fref_of(d.field, t, p, q)
                    && ident_of(d.type_info, t[q + 1])
                    && d.span == span_between(t, p, q + 2)
                    && stop == q + 2
            },
            TokenKind::Assign => r is Ok ==> (r->Ok_0 matches Statement::Assignment(a)
                && a.target matches AssignTarget::FieldRef(fr) && fref_of(fr, t, p, q)
                && assignable_parse(a.value, t, q + 1) == Some(stop)
                && a.span == span_between(t, p, stop)),
            TokenKind::AddAssign | TokenKind::SubAssign => r is Ok ==> (r->Ok_0 matches Statement::CumAssignment(c)
                && c.operator == (if t[q].kind == TokenKind::AddAssign { CumOperator::Add } else { CumOperator::Sub })
                && (c.target matches AssignTarget::FieldRef(fr) && fref_of(fr, t, p, q))
                && expr_parse(c.value, t, q + 1, 4) == Some(stop)
                && c.span == span_between(t, p, stop)),
            TokenKind::OrAssign | TokenKind::AndAssign => r is Ok ==> (r->Ok_0 matches Statement::SetAssignment(c)
                && c.operator == (if t[q].kind == TokenKind::OrAssign { SetOperator::Or } else { SetOperator::And })
                && (c.target matches AssignTarget::FieldRef(fr) && fref_of(fr, t, p, q))
                && expr_parse(c.value, t, q + 1, 4) == Some(stop)
                && c.span == span_between(t, p, stop)),
            TokenKind::Wire => r is Ok ==> (r->Ok_0 matches Statement::Connection(c)
                && (c.left matches Connectable::FieldRef(fr) && fref_of(fr, t, p, q))
                && connectable_parse(c.right, t, q + 1) == Some(stop)
                && c.span == span_between(t, p, stop)),
            TokenKind::Sperm | TokenKind::LSperm => r is Ok ==> (r->Ok_0 matches Statement::DirectedConnection(d)
                && d.direction == (if t[q].kind == TokenKind::Sperm {
                    ConnectionDirection::Forward
                } else {
                    ConnectionDirection::Backward
                })
                && d.elements@.len() >= 2
                && (d.elements@[0] matches Connectable::FieldRef(fr) && fref_of(fr, t, p, q))
                && chain_parse(d.elements@.drop_first(), t, q, t[q].kind)
                    == Some(stop)
                && d.span == span_between(t, p, stop)),
            TokenKind::Arrow => match type_ref_end(t, q + 1) {
                Ok(q2) => r matches Ok(Statement::Retype(rt))
                    && fref_of(rt.field, t, p, q)
                    && type_ref_of(rt.new_type, t, q + 1, q2)
                    && rt.span == span_between(t, p, q2)
                    && stop == q2,
                Err(f) => r matches Err(e) && fail_is(e, f, t) && stop == f.pos(),
            },
            _ => r matches Err(e) && is_expected(e, "assignment, connection, or declaration"@, t[q].span)
                && stop == q,
        },
    }
}

/// What a statement parse from `p` that stopped at `stop` gives, by the first
/// token: a statement of a form that the token allows and derived from the tokens
/// (`stmt_ok`, bodies of blocks and loops included), or an error where no
/// statement starts there.
pub open spec fn stmt_res(t: Seq<TokenView>, p: int, stop: int, r: Result<Statement, ParseError>) -> bool {
    &&& r matches Ok(s) ==> stmt_fits(s, t[p].kind)
    &&& r matches Ok(s) ==> stmt_ok(t, p, stop, s)
    &&& !starts_statement(t[p].kind) ==> (r matches Err(e) && is_expected(e, "statement"@, t[p].span) && stop == p)
    &&& t[p].kind == TokenKind::Pass ==> r == Ok::<Statement, ParseError>(Statement::Pass(PassStmt { span: t[p].span }))
        && stop == p + 1
    &&& t[p].kind == TokenKind::String ==> (r matches Ok(Statement::StringStmt(s)) && string_of(s.value, t[p])
        && s.span == t[p].span && stop == p + 1)
    &&& t[p].kind == TokenKind::Pragma ==> (r matches Ok(Statement::Pragma(ps)) && ps.content@ == t[p].text
        && ps.span == t[p].span)
    &&& t[p].kind == TokenKind::Name ==> name_stmt_res(t, p, stop, r)
    &&& t[p].kind == TokenKind::Assert ==> (r matches Ok(Statement::Assert(a)) ==> comparison_parse(
        a.comparison, t, p + 1) == Some(stop))
}

/// Only newlines stand in the tokens `a..b`.
pub open spec fn blank(t: Seq<TokenView>, a: int, b: int) -> bool {
    forall|k: int| a <= k < b ==> #[trigger] t[k].kind == TokenKind::Newline
}

/// The statements `ss` were parsed one after another from the tokens `p..q`: the
/// `i`-th from `st[i]` to `en[i]` (as `stmt_res` says), with only newlines
/// before, between and after them.
pub open spec fn stmts_derived(ss: Seq<Statement>, st: Seq<int>, en: Seq<int>, t: Seq<TokenView>, p: int, q: int) -> bool {
    &&& st.len() == ss.len()
    &&& en.len() == ss.len()
    &&& forall|i: int| 0 <= i < ss.len() ==> p <= #[trigger] st[i] < en[i] <= q
        && stmt_res(t, st[i], en[i], Ok::<Statement, ParseError>(ss[i]))
    &&& ss.len() == 0 ==> blank(t, p, q)
    &&& ss.len() > 0 ==> blank(t, p, st[0]) && blank(t, en[ss.len() - 1], q)
    &&& forall|i: int| 0 <= i < ss.len() - 1 ==> #[trigger] gap_blank(t, st, en, i)
}

/// The `i`-th statement ends before the next starts, with only newlines between.
pub open spec fn gap_blank(t: Seq<TokenView>, st: Seq<int>, en: Seq<int>, i: int) -> bool {
    en[i] <= st[i + 1] && blank(t, en[i], st[i + 1])
}

/// The statements `ss` were parsed one after another from the tokens `p..q`, where
/// `q` holds the end-of-file token (see `stmts_derived`).
pub open spec fn file_derived(ss: Seq<Statement>, st: Seq<int>, en: Seq<int>, t: Seq<TokenView>, p: int, q: int) -> bool {
    &&& 0 <= p <= q < t.len()
    &&& t[q].kind == TokenKind::Eof
    &&& stmts_derived(ss, st, en, t, p, q)
}

/// The statements `ss` were parsed one after another from the tokens `p..q`, where
/// `q` holds the end-of-file token, at some positions (see `file_derived`).
pub open spec fn file_parses(ss: Seq<Statement>, t: Seq<TokenView>, p: int, q: int) -> bool {
    exists|st: Seq<int>, en: Seq<int>| file_derived(ss, st, en, t, p, q)
}

/// A newline after derived statements extends the tokens they were derived from.
proof fn lemma_derived_newline(ss: Seq<Statement>, st: Seq<int>, en: Seq<int>, t: Seq<TokenView>, p: int, q: int)
    requires
        stmts_derived(ss, st, en, t, p, q),
        t[q].kind == TokenKind::Newline,
    ensures
        stmts_derived(ss, st, en, t, p, q + 1),
{
    let b = if ss.len() == 0 { p } else { en[ss.len() - 1] };
    assert(blank(t, b, q));
    assert forall|k: int| b <= k < q + 1 implies #[trigger] t[k].kind == TokenKind::Newline by {
        if k < q {
            assert(blank(t, b, q));
        }
    }
}

/// A statement derived from the tokens `q..r` after derived statements extends them.
proof fn lemma_derived_push(ss: Seq<Statement>, st: Seq<int>, en: Seq<int>, t: Seq<TokenView>, p: int, q: int, s: Statement, r: int)
    requires
        stmts_derived(ss, st, en, t, p, q),
        p <= q < r,
        stmt_res(t, q, r, Ok::<Statement, ParseError>(s)),
    ensures
        stmts_derived(ss.push(s), st.push(q), en.push(r), t, p, r),
{
    let ss2 = ss.push(s);
    let st2 = st.push(q);
    let en2 = en.push(r);
    assert forall|i: int| 0 <= i < ss2.len() implies p <= #[trigger] st2[i] < en2[i] <= r
        && stmt_res(t, st2[i], en2[i], Ok::<Statement, ParseError>(ss2[i])) by {
        if i < ss.len() {
            assert(st[i] == st2[i]);
        }
    }
    assert forall|i: int| 0 <= i < ss2.len() - 1 implies #[trigger] gap_blank(t, st2, en2, i) by {
        if i < ss.len() - 1 {
            assert(st[i + 1] == st2[i + 1] && en[i] == en2[i]);
            assert(gap_blank(t, st, en, i));
        } else {
            let j = ss.len() - 1;
            assert(i == j && 0 <= j < ss.len());
            assert(p <= st[j] < en[j] <= q);
            assert(en2[j] == en[j]);
            assert(st2[j + 1] == q);
            assert(blank(t, en[j], q));
            assert(gap_blank(t, st2, en2, j));
        }
    }
    if ss.len() > 0 {
        assert(st2[0] == st[0]);
    }
    assert(blank(t, r, r));
}

/// Where an expression from `p` at a precedence level (as `expr_parse` counts
/// them; -2 is an atom) ends, or where and why its parse fails.
pub open spec fn expr_end(t: Seq<TokenView>, p: int, level: int) -> Result<int, Fail>
    decreases t.len() - p, level + 3,
{
    if !(0 <= p < t.len()) {
        Err(Fail::Expected { what: "expression"@, at: p })
    } else if level >= 4 {
        expr_end(t, p, 3)
    } else if level >= 1 {
        match expr_end(t, p, level - 1) {
            Ok(m) => if p < m <= t.len() { rest_end(t, m, level) } else { Ok(m) },
            Err(f) => Err(f),
        }
    } else if level == 0 {
        match expr_end(t, p, -1) {
            Ok(m) => if p < m < t.len() && t[m].kind == TokenKind::Power {
                expr_end(t, m + 1, -1)
            } else {
                Ok(m)
            },
            Err(f) => Err(f),
        }
    } else if level == -1 {
        if p + 2 < t.len() && t[p].kind == TokenKind::Name && t[p + 1].kind == TokenKind::OpenParen {
            if t[p + 2].kind == TokenKind::CloseParen {
                Ok(p + 3)
            } else {
                match expr_end(t, p + 2, -2) {
                    Ok(m) => if p + 2 < m <= t.len() {
                        match call_args_end(t, m) {
                            Ok(m2) => if 0 <= m2 < t.len() && t[m2].kind == TokenKind::CloseParen {
                                Ok(m2 + 1)
                            } else {
                                Err(Fail::Expect { kind: TokenKind::CloseParen, at: m2 })
                            },
                            Err(f) => Err(f),
                        }
                    } else {
                        Ok(m)
                    },
                    Err(f) => Err(f),
                }
            }
        } else {
            expr_end(t, p, -2)
        }
    } else {
        let k = t[p].kind;
        if k == TokenKind::OpenParen {
            match expr_end(t, p + 1, 4) {
                Ok(q) => if 0 <= q < t.len() && t[q].kind == TokenKind::CloseParen {
                    Ok(q + 1)
                } else {
                    Err(Fail::Expect { kind: TokenKind::CloseParen, at: q })
                },
                Err(f) => Err(f),
            }
        } else if k == TokenKind::Number {
            physical_end(t, p)
        } else if k == TokenKind::Plus || k == TokenKind::Minus {
            if t[p + 1].kind == TokenKind::Number {
                physical_end(t, p + 1)
            } else {
                expr_end(t, p + 1, -2)
            }
        } else if k == TokenKind::Name {
            fref_end(t, p)
        } else if k == TokenKind::String || k == TokenKind::True || k == TokenKind::False {
            Ok(p + 1)
        } else {
            Err(Fail::Expected { what: "expression"@, at: p })
        }
    }
}

/// After an operand that ends at `m`, a chain at a precedence level 1 to 3 goes on
/// over operator and operand pairs: where it ends, or where and why it fails.
pub open spec fn rest_end(t: Seq<TokenView>, m: int, level: int) -> Result<int, Fail>
    decreases t.len() - m, level + 3,
{
    if 0 <= m < t.len() && token_at_level(t[m].kind, level) {
        match expr_end(t, m + 1, level - 1) {
            Ok(q) => if m < q <= t.len() { rest_end(t, q, level) } else { Ok(q) },
            Err(f) => Err(f),
        }
    } else {
        Ok(m)
    }
}

/// The further atoms of a function call's arguments, from `m` up to the closing
/// parenthesis or the end: where they end, or where and why one fails.
pub open spec fn call_args_end(t: Seq<TokenView>, m: int) -> Result<int, Fail>
    decreases t.len() - m, 2int,
{
    if 0 <= m < t.len() && t[m].kind != TokenKind::CloseParen && t[m].kind != TokenKind::Eof {
        match expr_end(t, m, -2) {
            Ok(q) => if m < q <= t.len() { call_args_end(t, q) } else { Ok(q) },
            Err(f) => Err(f),
        }
    } else {
        Ok(m)
    }
}

/// The comparison operators and operands after the expression that ends at `m`:
/// where they end, or where and why one fails.
pub open spec fn compare_rest_end(t: Seq<TokenView>, m: int) -> Result<int, Fail>
    decreases t.len() - m,
{
    if 0 <= m < t.len() && compare_kind(t[m].kind) is Some {
        match expr_end(t, m + 1, 4) {
            Ok(q) => if m < q <= t.len() { compare_rest_end(t, q) } else { Ok(q) },
            Err(f) => Err(f),
        }
    } else {
        Ok(m)
    }
}

/// Where a comparison from `p` ends, or where and why its parse fails: an
/// expression and at least one comparison operator and operand.
pub open spec fn comparison_end(t: Seq<TokenView>, p: int) -> Result<int, Fail> {
    match expr_end(t, p, 4) {
        Ok(m) => match compare_rest_end(t, m) {
            Ok(q) => if q == m { Err(Fail::Expected { what: "comparison operator"@, at: m }) } else { Ok(q) },
            Err(f) => Err(f),
        },
        Err(f) => Err(f),
    }
}

/// Where a connectable from `p` ends, or where and why it fails: `signal` or `pin`
/// and a name, or a field reference.
pub open spec fn connectable_end(t: Seq<TokenView>, p: int) -> Result<int, Fail> {
    if t[p].kind == TokenKind::Signal {
        if is_ident_kind(t[p + 1].kind) {
            Ok(p + 2)
        } else {
            Err(Fail::Expected { what: "identifier"@, at: p + 1 })
        }
    } else if t[p].kind == TokenKind::Pin {
        if is_pin_name_kind(t[p + 1].kind) {
            Ok(p + 2)
        } else {
            Err(Fail::Expected { what: "pin name"@, at: p + 1 })
        }
    } else if t[p].kind == TokenKind::Name {
        fref_end(t, p)
    } else {
        Err(Fail::Expected { what: "connectable"@, at: p })
    }
}

/// Where the rest of a directed chain from `m` ends, or where and why it fails:
/// while an arrow stands at `m`, it must be of kind `arrow` and a connectable must
/// follow it.
pub open spec fn chain_end(t: Seq<TokenView>, m: int, arrow: TokenKind) -> Result<int, Fail>
    decreases t.len() - m,
{
    if 0 <= m < t.len() && (t[m].kind == TokenKind::Sperm || t[m].kind == TokenKind::LSperm) {
        if t[m].kind != arrow {
            Err(Fail::Mixed { at: m })
        } else {
            match connectable_end(t, m + 1) {
                Ok(q) => if m < q <= t.len() { chain_end(t, q, arrow) } else { Ok(q) },
                Err(f) => Err(f),
            }
        }
    } else {
        Ok(m)
    }
}

/// Where the target and type of a trait statement whose `trait` keyword stands at
/// `p` end: a field reference, and a type reference after it when a name follows.
pub open spec fn trait_type_end(t: Seq<TokenView>, p: int) -> Result<int, Fail> {
    match fref_end(t, p + 1) {
        Ok(q) => if t[q].kind == TokenKind::Name { type_ref_end(t, q) } else { Ok(q) },
        Err(f) => Err(f),
    }
}

/// Where the optional `::constructor` of a trait statement, from `q`, ends.
pub open spec fn trait_ctor_end(t: Seq<TokenView>, q: int) -> Result<int, Fail> {
    if t[q].kind == TokenKind::DoubleColon {
        if is_ident_kind(t[q + 1].kind) {
            Ok(q + 2)
        } else {
            Err(Fail::Expected { what: "identifier"@, at: q + 1 })
        }
    } else {
        Ok(q)
    }
}

/// Where a trait statement whose `trait` keyword stands at `p` ends, or where and
/// why it fails: target and type, optional constructor, optional template.
pub open spec fn trait_end(t: Seq<TokenView>, p: int) -> Result<int, Fail> {
    match trait_type_end(t, p) {
        Ok(q2) => match trait_ctor_end(t, q2) {
            Ok(q3) => if t[q3].kind == TokenKind::LessThan { template_end(t, q3) } else { Ok(q3) },
            Err(f) => Err(f),
        },
        Err(f) => Err(f),
    }
}

/// Where the further `, X` type references from `m` end, or where and why one fails.
pub open spec fn type_refs_rest(t: Seq<TokenView>, m: int) -> Result<int, Fail>
    decreases t.len() - m,
{
    if 0 <= m < t.len() && t[m].kind == TokenKind::Comma {
        match type_ref_end(t, m + 1) {
            Ok(q) => if m < q <= t.len() { type_refs_rest(t, q) } else { Ok(q) },
            Err(f) => Err(f),
        }
    } else {
        Ok(m)
    }
}

/// Where an `import` statement at `p` ends, or where and why it fails: a list of
/// type references, or one type reference `from` a path.
pub open spec fn import_end(t: Seq<TokenView>, p: int) -> Result<int, Fail> {
    match type_ref_end(t, p + 1) {
        Ok(q) => if t[q].kind == TokenKind::From {
            if t[q + 1].kind == TokenKind::String {
                Ok(q + 2)
            } else {
                Err(Fail::Expect { kind: TokenKind::String, at: q + 1 })
            }
        } else {
            type_refs_rest(t, q)
        },
        Err(f) => Err(f),
    }
}

/// Where a `from "path" import ...` statement at `p` ends, or where and why it fails.
pub open spec fn from_import_end(t: Seq<TokenView>, p: int) -> Result<int, Fail> {
    if t[p + 1].kind != TokenKind::String {
        Err(Fail::Expect { kind: TokenKind::String, at: p + 1 })
    } else if t[p + 2].kind != TokenKind::Import {
        Err(Fail::Expect { kind: TokenKind::Import, at: p + 2 })
    } else {
        match type_ref_end(t, p + 3) {
            Ok(q) => type_refs_rest(t, q),
            Err(f) => Err(f),
        }
    }
}

/// Where a statement starting `signal name` at `p` ends, or where and why it
/// fails: the definition alone, or a connection or chain that starts with it.
pub open spec fn signal_end(t: Seq<TokenView>, p: int) -> Result<int, Fail> {
    if !is_ident_kind(t[p + 1].kind) {
        Err(Fail::Expected { what: "identifier"@, at: p + 1 })
    } else if t[p + 2].kind == TokenKind::Wire {
        connectable_end(t, p + 3)
    } else if t[p + 2].kind == TokenKind::Sperm || t[p + 2].kind == TokenKind::LSperm {
        chain_end(t, p + 2, t[p + 2].kind)
    } else {
        Ok(p + 2)
    }
}

/// Where the value of an assignment from `p` ends, or where and why it fails.
pub open spec fn assignable_end(t: Seq<TokenView>, p: int) -> Result<int, Fail> {
    let k = t[p].kind;
    if k == TokenKind::String || k == TokenKind::True || k == TokenKind::False {
        Ok(p + 1)
    } else if k == TokenKind::New {
        new_end(t, p)
    } else if k == TokenKind::Number || k == TokenKind::Plus || k == TokenKind::Minus {
        physical_end(t, p)
    } else if k == TokenKind::Name || k == TokenKind::OpenParen {
        expr_end(t, p, 4)
    } else {
        Err(Fail::Expected { what: "assignable value"@, at: p })
    }
}

/// Where a statement that starts with a name at `p` ends, or where and why it
/// fails: by the token after the field reference.
pub open spec fn name_stmt_end(t: Seq<TokenView>, p: int) -> Result<int, Fail> {
    match fref_end(t, p) {
        Ok(q) => {
            let k = t[q].kind;
            if k == TokenKind::Colon {
                if !is_ident_kind(t[q + 1].kind) {
                    Err(Fail::Expected { what: "identifier"@, at: q + 1 })
                } else if t[q + 2].kind == TokenKind::Assign {
                    assignable_end(t, q + 3)
                } else {
                    Ok(q + 2)
                }
            } else if k == TokenKind::Assign {
                assignable_end(t, q + 1)
            } else if k == TokenKind::AddAssign || k == TokenKind::SubAssign || k == TokenKind::OrAssign
                || k == TokenKind::AndAssign {
                expr_end(t, q + 1, 4)
            } else if k == TokenKind::Wire {
                connectable_end(t, q + 1)
            } else if k == TokenKind::Sperm || k == TokenKind::LSperm {
                chain_end(t, q, k)
            } else if k == TokenKind::Arrow {
                type_ref_end(t, q + 1)
            } else {
                Err(Fail::Expected { what: "assignment, connection, or declaration"@, at: q })
            }
        },
        Err(f) => Err(f),
    }
}

/// Where one simple statement from `p` ends, or where and why it fails.
pub open spec fn simple_stmt_end(t: Seq<TokenView>, p: int) -> Result<int, Fail> {
    let k = t[p].kind;
    if k == TokenKind::Import {
        import_end(t, p)
    } else if k == TokenKind::From {
        from_import_end(t, p)
    } else if k == TokenKind::Pin {
        if is_pin_name_kind(t[p + 1].kind) {
            Ok(p + 2)
        } else {
            Err(Fail::Expected { what: "pin name"@, at: p + 1 })
        }
    } else if k == TokenKind::Signal {
        signal_end(t, p)
    } else if k == TokenKind::Assert {
        comparison_end(t, p + 1)
    } else if k == TokenKind::Pass || k == TokenKind::String {
        Ok(p + 1)
    } else if k == TokenKind::Trait {
        trait_end(t, p)
    } else if k == TokenKind::Name {
        name_stmt_end(t, p)
    } else {
        Err(Fail::Expected { what: "statement"@, at: p })
    }
}

/// After a simple statement that ends at `m`, the further `; statement` parts:
/// where they end (a `;` before a newline or the end closes them), or where and
/// why one fails.
pub open spec fn semi_rest(t: Seq<TokenView>, m: int) -> Result<int, Fail>
    decreases t.len() - m,
{
    if 0 <= m < t.len() && t[m].kind == TokenKind::Semicolon {
        if t[m + 1].kind == TokenKind::Newline || t[m + 1].kind == TokenKind::Eof {
            Ok(m + 1)
        } else {
            match simple_stmt_end(t, m + 1) {
                Ok(q) => if m < q <= t.len() { semi_rest(t, q) } else { Ok(q) },
                Err(f) => Err(f),
            }
        }
    } else {
        Ok(m)
    }
}

/// Where a line of simple statements separated by `;` from `p`, with its newline
/// if one follows, ends, or where and why it fails.
pub open spec fn simple_stmts_end(t: Seq<TokenView>, p: int) -> Result<int, Fail> {
    match simple_stmt_end(t, p) {
        Ok(q) => match semi_rest(t, q) {
            Ok(m) => if t[m].kind == TokenKind::Newline { Ok(m + 1) } else { Ok(m) },
            Err(f) => Err(f),
        },
        Err(f) => Err(f),
    }
}

/// Where a pragma at `p`, with its newline if one follows, ends.
pub open spec fn pragma_end(t: Seq<TokenView>, p: int) -> Result<int, Fail> {
    if t[p + 1].kind == TokenKind::Newline { Ok(p + 2) } else { Ok(p + 1) }
}

/// After the first field reference of a list that ends at `m`, the further
/// `, field` parts (a `,` before `]` is left for the list's end): where they end,
/// or where and why one fails.
pub open spec fn list_rest(t: Seq<TokenView>, m: int) -> Result<int, Fail>
    decreases t.len() - m,
{
    if 0 <= m < t.len() && t[m].kind == TokenKind::Comma
        && !(m + 1 < t.len() && t[m + 1].kind == TokenKind::CloseBracket) {
        match fref_end(t, m + 1) {
            Ok(q) => if m < q <= t.len() { list_rest(t, q) } else { Ok(q) },
            Err(f) => Err(f),
        }
    } else {
        Ok(m)
    }
}

/// Where what a `for` loop walks over, from `p`, ends, or where and why it fails:
/// a bracketed list of field references, or a field reference with an optional
/// slice.
pub open spec fn iterable_end(t: Seq<TokenView>, p: int) -> Result<int, Fail> {
    if t[p].kind == TokenKind::OpenBracket {
        let r: Result<int, Fail> = if t[p + 1].kind == TokenKind::CloseBracket {
            Ok(p + 1)
        } else {
            match fref_end(t, p + 1) {
                Ok(q) => match list_rest(t, q) {
                    Ok(m) => if t[m].kind == TokenKind::Comma { Ok(m + 1) } else { Ok(m) },
                    Err(f) => Err(f),
                },
                Err(f) => Err(f),
            }
        };
        match r {
            Ok(m) => if t[m].kind == TokenKind::CloseBracket {
                Ok(m + 1)
            } else {
                Err(Fail::Expect { kind: TokenKind::CloseBracket, at: m })
            },
            Err(f) => Err(f),
        }
    } else {
        match fref_end(t, p) {
            Ok(q) => if t[q].kind == TokenKind::OpenBracket { slice_end(t, q) } else { Ok(q) },
            Err(f) => Err(f),
        }
    }
}

/// Where a block definition at `p` ends, or where and why it fails: a name, an
/// optional `from` type, a colon and a block.
pub open spec fn block_def_end(t: Seq<TokenView>, p: int) -> Result<int, Fail>
    decreases t.len() - p, 4int,
{
    if !is_ident_kind(t[p + 1].kind) {
        Err(Fail::Expected { what: "identifier"@, at: p + 1 })
    } else {
        let h: Result<int, Fail> = if t[p + 2].kind == TokenKind::From { type_ref_end(t, p + 3) } else { Ok(p + 2) };
        match h {
            Ok(q) => if p < q < t.len() && t[q].kind == TokenKind::Colon {
                block_end(t, q + 1)
            } else {
                Err(Fail::Expect { kind: TokenKind::Colon, at: q })
            },
            Err(f) => Err(f),
        }
    }
}

/// Where a `for` loop at `p` ends, or where and why it fails: a name, `in`, what
/// it walks over, a colon and a block.
pub open spec fn for_end(t: Seq<TokenView>, p: int) -> Result<int, Fail>
    decreases t.len() - p, 4int,
{
    if !is_ident_kind(t[p + 1].kind) {
        Err(Fail::Expected { what: "identifier"@, at: p + 1 })
    } else if t[p + 2].kind != TokenKind::In {
        Err(Fail::Expect { kind: TokenKind::In, at: p + 2 })
    } else {
        match iterable_end(t, p + 3) {
            Ok(q) => if p < q < t.len() && t[q].kind == TokenKind::Colon {
                block_end(t, q + 1)
            } else {
                Err(Fail::Expect { kind: TokenKind::Colon, at: q })
            },
            Err(f) => Err(f),
        }
    }
}

/// Where a block from `p` ends, or where and why it fails: simple statements on
/// the same line, or a newline, an indent, statement lines and a dedent.
pub open spec fn block_end(t: Seq<TokenView>, p: int) -> Result<int, Fail>
    decreases t.len() - p, 3int,
{
    if t[p].kind != TokenKind::Newline {
        simple_stmts_end(t, p)
    } else if t[p + 1].kind != TokenKind::Indent {
        Err(Fail::Expect { kind: TokenKind::Indent, at: p + 1 })
    } else if 0 <= p && p + 2 <= t.len() {
        match lines_end(t, p + 2) {
            Ok(m) => if t[m].kind == TokenKind::Dedent {
                Ok(m + 1)
            } else {
                Err(Fail::Expect { kind: TokenKind::Dedent, at: m })
            },
            Err(f) => Err(f),
        }
    } else {
        Ok(p)
    }
}

/// The statement lines of a block from `m`, blank lines skipped, up to a dedent or
/// the end: where they end, or where and why one fails.
pub open spec fn lines_end(t: Seq<TokenView>, m: int) -> Result<int, Fail>
    decreases t.len() - m, 6int,
{
    if 0 <= m < t.len() && t[m].kind != TokenKind::Dedent && t[m].kind != TokenKind::Eof {
        if t[m].kind == TokenKind::Newline {
            lines_end(t, m + 1)
        } else {
            match line_end(t, m) {
                Ok(q) => if m < q <= t.len() { lines_end(t, q) } else { Ok(q) },
                Err(f) => Err(f),
            }
        }
    } else {
        Ok(m)
    }
}

/// Where one line of a block from `p` ends, or where and why it fails: a pragma,
/// a block definition, a `for` loop, or simple statements.
pub open spec fn line_end(t: Seq<TokenView>, p: int) -> Result<int, Fail>
    decreases t.len() - p, 5int,
{
    let k = t[p].kind;
    if k == TokenKind::Pragma {
        pragma_end(t, p)
    } else if k == TokenKind::Module || k == TokenKind::Component || k == TokenKind::Interface {
        block_def_end(t, p)
    } else if k == TokenKind::For {
        for_end(t, p)
    } else {
        simple_stmts_end(t, p)
    }
}

/// Where one statement from `p` ends, or where and why it fails: a pragma, a block
/// definition, a `for` loop, or one simple statement.
pub open spec fn stmt_end(t: Seq<TokenView>, p: int) -> Result<int, Fail> {
    let k = t[p].kind;
    if k == TokenKind::Pragma {
        pragma_end(t, p)
    } else if k == TokenKind::Module || k == TokenKind::Component || k == TokenKind::Interface {
        block_def_end(t, p)
    } else if k == TokenKind::For {
        for_end(t, p)
    } else {
        simple_stmt_end(t, p)
    }
}

/// Where the statements of a file from `p` end (at the end-of-file token), blank
/// lines skipped, or where and why one fails.
pub open spec fn file_end(t: Seq<TokenView>, p: int) -> Result<int, Fail>
    decreases t.len() - p,
{
    if 0 <= p < t.len() && t[p].kind != TokenKind::Eof {
        if t[p].kind == TokenKind::Newline {
            file_end(t, p + 1)
        } else {
            match stmt_end(t, p) {
                Ok(q) => if p < q <= t.len() { file_end(t, q) } else { Ok(q) },
                Err(f) => Err(f),
            }
        }
    } else {
        Ok(p)
    }
}

/// `s` is the `import` statement derived from the tokens `p..stop`: a list of type
/// references, or one type reference `from` a path.
pub open spec fn import_ok(t: Seq<TokenView>, p: int, stop: int, s: Statement) -> bool {
    match type_ref_end(t, p + 1) {
        Ok(q) => if t[q].kind == TokenKind::From {
            s matches Statement::DepImport(d) && type_ref_of(d.type_ref, t, p + 1, q)
                && string_of(d.from_path, t[q + 1]) && d.span == span_between(t, p, q + 2)
        } else {
            s matches Statement::Import(i) && i.from_path is None
                && type_refs_parse(i.imports@, t, p + 1) == Some(stop)
                && i.span == span_between(t, p, stop)
        },
        Err(_) => false,
    }
}

/// `s` is the `from "path" import ...` statement derived from the tokens `p..stop`.
pub open spec fn from_import_ok(t: Seq<TokenView>, p: int, stop: int, s: Statement) -> bool {
    s matches Statement::Import(i) && i.from_path matches Some(x) && string_of(x, t[p + 1])
        && type_refs_parse(i.imports@, t, p + 3) == Some(stop) && i.span == span_between(t, p, stop)
}

/// `s` is the statement starting `signal name` derived from the tokens `p..stop`:
/// the definition alone, or a connection or chain that starts with it.
pub open spec fn signal_ok(t: Seq<TokenView>, p: int, stop: int, s: Statement) -> bool {
    let def_ok = |sd: SignalDef| ident_of(sd.name, t[p + 1]) && sd.span == span_between(t, p, p + 2);
    if t[p + 2].kind == TokenKind::Wire {
        s matches Statement::Connection(c) && (c.left matches Connectable::SignalDef(sd) && def_ok(sd))
            && connectable_parse(c.right, t, p + 3) == Some(stop) && c.span == span_between(t, p, stop)
    } else if t[p + 2].kind == TokenKind::Sperm || t[p + 2].kind == TokenKind::LSperm {
        s matches Statement::DirectedConnection(d) && d.elements@.len() >= 2
            && (d.elements@[0] matches Connectable::SignalDef(sd) && def_ok(sd))
            && d.direction == (if t[p + 2].kind == TokenKind::Sperm {
                ConnectionDirection::Forward
            } else {
                ConnectionDirection::Backward
            })
            && chain_parse(d.elements@.drop_first(), t, p + 2, t[p + 2].kind) == Some(stop)
            && d.span == span_between(t, p, stop)
    } else {
        s matches Statement::SignalDef(sd) && def_ok(sd) && stop == p + 2
    }
}

/// `s` is the `trait` statement derived from the tokens `p..stop`.
pub open spec fn trait_ok(t: Seq<TokenView>, p: int, stop: int, s: Statement) -> bool {
    s matches Statement::Trait(tr) && tr.span == span_between(t, p, stop)
        && (fref_end(t, p + 1) matches Ok(q)
        && (t[q].kind == TokenKind::Name ==> (tr.target matches Some(fr) && fref_of(fr, t, p + 1, q)
            && (type_ref_end(t, q) matches Ok(q2) && type_ref_of(tr.type_ref, t, q, q2))))
        && (t[q].kind != TokenKind::Name ==> (tr.target is None && tr.type_ref.span == span_between(t, p + 1, q))))
        && (trait_type_end(t, p) matches Ok(q2)
        && (tr.constructor is Some <==> t[q2].kind == TokenKind::DoubleColon)
        && (tr.constructor matches Some(c) ==> ident_of(c, t[q2 + 1]))
        && (trait_ctor_end(t, q2) matches Ok(q3)
        && (tr.template is Some <==> t[q3].kind == TokenKind::LessThan)
        && (tr.template matches Some(tpl) ==> template_of(tpl, t, q3, stop))))
}

/// `s` is the simple statement derived from the tokens `p..stop`, by its first
/// token.
pub open spec fn simple_ok(t: Seq<TokenView>, p: int, stop: int, s: Statement) -> bool {
    let k = t[p].kind;
    if k == TokenKind::Import {
        import_ok(t, p, stop, s)
    } else if k == TokenKind::From {
        from_import_ok(t, p, stop, s)
    } else if k == TokenKind::Pin {
        s matches Statement::PinDeclaration(d) && pin_name_of(d.name, t[p + 1])
            && d.span == span_between(t, p, p + 2)
    } else if k == TokenKind::Signal {
        signal_ok(t, p, stop, s)
    } else if k == TokenKind::Assert {
        s matches Statement::Assert(a) && comparison_parse(a.comparison, t, p + 1) == Some(stop)
            && a.span == span_between(t, p, stop)
    } else if k == TokenKind::Pass {
        s == Statement::Pass(PassStmt { span: t[p].span })
    } else if k == TokenKind::String {
        s matches Statement::StringStmt(x) && string_of(x.value, t[p]) && x.span == t[p].span
    } else if k == TokenKind::Trait {
        trait_ok(t, p, stop, s)
    } else if k == TokenKind::Name {
        name_stmt_res(t, p, stop, Ok::<Statement, ParseError>(s))
    } else {
        false
    }
}

/// After a simple statement that ends at `q`, the statements `w` that follow it
/// after `;`s on the same line, each derived from its tokens.
pub open spec fn semis_tail(w: Seq<Statement>, t: Seq<TokenView>, q: int) -> bool
    decreases t.len() - q,
{
    if 0 <= q < t.len() && t[q].kind == TokenKind::Semicolon
        && !(t[q + 1].kind == TokenKind::Newline || t[q + 1].kind == TokenKind::Eof) {
        match simple_stmt_end(t, q + 1) {
            Ok(q2) => if q < q2 <= t.len() {
                w.len() >= 1 && simple_ok(t, q + 1, q2, w[0]) && semis_tail(w.drop_first(), t, q2)
            } else {
                false
            },
            Err(_) => false,
        }
    } else {
        w.len() == 0
    }
}

/// How many statements follow, after `;`s on the same line, a simple statement
/// that ends at `q`.
pub open spec fn semis_more(t: Seq<TokenView>, q: int) -> nat
    decreases t.len() - q,
{
    if 0 <= q < t.len() && t[q].kind == TokenKind::Semicolon
        && !(t[q + 1].kind == TokenKind::Newline || t[q + 1].kind == TokenKind::Eof) {
        match simple_stmt_end(t, q + 1) {
            Ok(q2) => if q < q2 <= t.len() { 1 + semis_more(t, q2) } else { 1 },
            Err(_) => 1,
        }
    } else {
        0
    }
}

/// The statements `v` of a line of simple statements joined by `;` from `p`, each
/// derived from its tokens.
pub open spec fn semis_walk(v: Seq<Statement>, t: Seq<TokenView>, p: int) -> bool {
    v.len() >= 1 && match simple_stmt_end(t, p) {
        Ok(q) => simple_ok(t, p, q, v[0]) && semis_tail(v.drop_first(), t, q),
        Err(_) => false,
    }
}

/// The statements after a simple statement are as many as `semis_more` counts.
proof fn lemma_semis_tail_len(w: Seq<Statement>, t: Seq<TokenView>, q: int)
    requires
        semis_tail(w, t, q),
    ensures
        w.len() == semis_more(t, q),
    decreases t.len() - q,
{
    if 0 <= q < t.len() && t[q].kind == TokenKind::Semicolon
        && !(t[q + 1].kind == TokenKind::Newline || t[q + 1].kind == TokenKind::Eof) {
        if let Ok(q2) = simple_stmt_end(t, q + 1) {
            if q < q2 <= t.len() {
                lemma_semis_tail_len(w.drop_first(), t, q2);
            }
        }
    }
}

/// How many statements a line of a block from `m` holds.
pub open spec fn line_count(t: Seq<TokenView>, m: int) -> nat {
    let k = t[m].kind;
    if k == TokenKind::Pragma || k == TokenKind::Module || k == TokenKind::Component
        || k == TokenKind::Interface || k == TokenKind::For {
        1
    } else {
        match simple_stmt_end(t, m) {
            Ok(q) => 1 + semis_more(t, q),
            Err(_) => 1,
        }
    }
}

/// `s` is the statement derived from the tokens `p..stop`, by its first token:
/// for a block definition or a `for` loop, with its body derived too.
pub open spec fn stmt_ok(t: Seq<TokenView>, p: int, stop: int, s: Statement) -> bool
    decreases t.len() - p, 4int,
{
    let k = t[p].kind;
    if k == TokenKind::Pragma {
        s matches Statement::Pragma(ps) && ps.content@ == t[p].text && ps.span == t[p].span
    } else if k == TokenKind::Module || k == TokenKind::Component || k == TokenKind::Interface {
        let c = if t[p + 2].kind == TokenKind::From { type_ref_end(t, p + 3)->Ok_0 } else { p + 2 };
        &&& s matches Statement::BlockDef(b)
        &&& b.kind == block_kind_of(k)
        &&& ident_of(b.name, t[p + 1])
        &&& (b.super_type is Some <==> t[p + 2].kind == TokenKind::From)
        &&& (b.super_type matches Some(st) ==> type_ref_of(st, t, p + 3, c))
        &&& t[c].kind == TokenKind::Colon
        &&& b.span == span_between(t, p, stop)
        &&& if p < c + 1 <= t.len() { block_body_ok(b.body@, t, c + 1) } else { false }
    } else if k == TokenKind::For {
        let c = iterable_end(t, p + 3)->Ok_0;
        &&& s matches Statement::For(f)
        &&& ident_of(f.variable, t[p + 1])
        &&& t[p + 2].kind == TokenKind::In
        &&& (t[p + 3].kind == TokenKind::OpenBracket ==> f.iterable is List)
        &&& (t[p + 3].kind != TokenKind::OpenBracket ==> (fref_end(t, p + 3) matches Ok(q)
            && f.iterable matches Iterable::FieldRef { field, slice }
            && fref_of(field, t, p + 3, q)
            && (slice is Some <==> t[q].kind == TokenKind::OpenBracket)))
        &&& t[c].kind == TokenKind::Colon
        &&& f.span == span_between(t, p, stop)
        &&& if p < c + 1 <= t.len() { block_body_ok(f.body@, t, c + 1) } else { false }
    } else {
        simple_ok(t, p, stop, s)
    }
}

/// The statements `v` of a block from `p`, each derived from its tokens: simple
/// statements joined by `;` on the same line, or, after a newline and an indent,
/// the statements of its lines.
pub open spec fn block_body_ok(v: Seq<Statement>, t: Seq<TokenView>, p: int) -> bool
    decreases t.len() - p, 3int,
{
    if t[p].kind != TokenKind::Newline {
        semis_walk(v, t, p)
    } else if 0 <= p && p + 2 <= t.len() {
        lines_ok(v, t, p + 2)
    } else {
        false
    }
}

/// The statements `v` of the lines of a block from `m`, blank lines skipped, up to a
/// dedent or the end, each derived from its tokens.
#[verifier::opaque]
pub open spec fn lines_ok(v: Seq<Statement>, t: Seq<TokenView>, m: int) -> bool
    decreases t.len() - m, 6int,
{
    if 0 <= m < t.len() && t[m].kind != TokenKind::Dedent && t[m].kind != TokenKind::Eof {
        if t[m].kind == TokenKind::Newline {
            lines_ok(v, t, m + 1)
        } else {
            match line_end(t, m) {
                Ok(q) => if m < q <= t.len() {
                    let c = line_count(t, m) as int;
                    c <= v.len() && line_ok(v.take(c), t, m, q) && lines_ok(v.skip(c), t, q)
                } else {
                    false
                },
                Err(_) => false,
            }
        }
    } else {
        v.len() == 0
    }
}

/// The statements `v` of one line of a block from `m` to `q`: the one pragma, block
/// definition or `for` loop that starts there, or simple statements joined by `;`.
#[verifier::opaque]
pub open spec fn line_ok(v: Seq<Statement>, t: Seq<TokenView>, m: int, q: int) -> bool
    decreases t.len() - m, 5int,
{
    let k = t[m].kind;
    if k == TokenKind::Pragma || k == TokenKind::Module || k == TokenKind::Component
        || k == TokenKind::Interface || k == TokenKind::For {
        v.len() == 1 && stmt_ok(t, m, q, v[0])
    } else {
        semis_walk(v, t, m)
    }
}

/// Lines derived from `q` on, after a line derived from `m` to `q`, make the lines
/// derived from `m` on.
#[verifier::spinoff_prover]
#[verifier::rlimit(50)]
proof fn lemma_lines_prepend(t: Seq<TokenView>, m: int, q: int, sv: Seq<Statement>)
    requires
        0 <= m < q <= t.len(),
        t[m].kind != TokenKind::Dedent && t[m].kind != TokenKind::Eof && t[m].kind != TokenKind::Newline,
        line_end(t, m) == Ok::<int, Fail>(q),
        line_ok(sv, t, m, q),
        sv.len() == line_count(t, m),
    ensures
        forall|w: Seq<Statement>| #[trigger] lines_ok(w, t, q) ==> lines_ok(sv + w, t, m),
{
    reveal(lines_ok);
    assert forall|w: Seq<Statement>| #[trigger] lines_ok(w, t, q) implies lines_ok(sv + w, t, m) by {
        let v = sv + w;
        let c = line_count(t, m) as int;
        assert(v.take(c) =~= sv);
        assert(v.skip(c) =~= w);
        assert(c <= v.len());
        assert(line_ok(v.take(c), t, m, q));
        assert(lines_ok(v.skip(c), t, q));
    }
}

/// Statements derived before `m`, then a line from `m` to `q`, then lines from `q`
/// on, are the statements derived before `q` and then from `q` on.
proof fn lemma_lines_compose(t: Seq<TokenView>, m: int, q: int, sv: Seq<Statement>, before: Seq<Statement>, p: int)
    requires
        forall|w: Seq<Statement>| #[trigger] lines_ok(w, t, m) ==> lines_ok(before + w, t, p),
        forall|w: Seq<Statement>| #[trigger] lines_ok(w, t, q) ==> lines_ok(sv + w, t, m),
    ensures
        forall|w: Seq<Statement>| #[trigger] lines_ok(w, t, q) ==> lines_ok((before + sv) + w, t, p),
{
    assert forall|w: Seq<Statement>| #[trigger] lines_ok(w, t, q) implies lines_ok((before + sv) + w, t, p) by {
        assert(lines_ok(sv + w, t, m));
        assert(before + (sv + w) =~= (before + sv) + w);
    }
}

/// A blank line before lines derived from `m + 1` on leaves them derived from `m`.
proof fn lemma_lines_blank(t: Seq<TokenView>, m: int)
    requires
        0 <= m < t.len(),
        t[m].kind == TokenKind::Newline,
    ensures
        forall|w: Seq<Statement>| #[trigger] lines_ok(w, t, m + 1) ==> lines_ok(w, t, m),
{
    reveal(lines_ok);
}

/// No statements are derived from the lines at a dedent or the end.
proof fn lemma_lines_stop(t: Seq<TokenView>, m: int)
    requires
        0 <= m < t.len(),
        t[m].kind == TokenKind::Dedent || t[m].kind == TokenKind::Eof,
    ensures
        lines_ok(Seq::<Statement>::empty(), t, m),
{
    reveal(lines_ok);
}

/// The comparison operator that a token writes, if it writes one.
pub open spec fn compare_kind(k: TokenKind) -> Option<CompareOpKind> {
    match k {
        TokenKind::LessThan => Some(CompareOpKind::LessThan),
        TokenKind::GreaterThan => Some(CompareOpKind::GreaterThan),
        TokenKind::LessEq => Some(CompareOpKind::LessEq),
        TokenKind::GreaterEq => Some(CompareOpKind::GreaterEq),
        TokenKind::Within => Some(CompareOpKind::Within),
        TokenKind::Is => Some(CompareOpKind::Is),
        _ => None,
    }
}

/// Where the comparison operations `ops`, one after another from `p`, each an
/// operator and a whole arithmetic expression, end.
pub open spec fn compare_ops_parse(ops: Seq<CompareOp>, t: Seq<TokenView>, p: int) -> Option<int>
    decreases ops.len(),
{
    if ops.len() == 0 {
        Some(p)
    } else {
        match compare_ops_parse(ops.drop_last(), t, p) {
            Some(m) => {
                let o = ops.last();
                if compare_kind(t[m].kind) == Some(o.kind) {
                    match expr_parse(o.right, t, m + 1, 4) {
                        Some(q) => if o.span == span_between(t, m, q) { Some(q) } else { None },
                        None => None,
                    }
                } else {
                    None
                }
            },
            None => None,
        }
    }
}

/// Where the comparison `c`, from `p`, ends: an arithmetic expression and one or
/// more comparison operations, followed by no further comparison operator.
pub open spec fn comparison_parse(c: Comparison, t: Seq<TokenView>, p: int) -> Option<int> {
    match expr_parse(c.left, t, p, 4) {
        Some(m) => if c.operations@.len() >= 1 {
            match compare_ops_parse(c.operations@, t, m) {
                Some(q) => if compare_kind(t[q].kind) is None && c.span == span_between(t, p, q) {
                    Some(q)
                } else {
                    None
                },
                None => None,
            }
        } else {
            None
        },
        None => None,
    }
}

/// Where the value `v` of an assignment, from `p`, ends: a string, a `new`
/// expression, a boolean, a physical literal (which a number or a sign starts), or
/// an arithmetic expression (which a name or a parenthesis starts).
pub open spec fn assignable_parse(v: Assignable, t: Seq<TokenView>, p: int) -> Option<int> {
    match v {
        Assignable::String(s) => if t[p].kind == TokenKind::String && string_of(s, t[p]) { Some(p + 1) } else { None },
        Assignable::New(ne) => match new_end(t, p) {
            Ok(q) => if t[p].kind == TokenKind::New && new_of(ne, t, p, q) { Some(q) } else { None },
            Err(_) => None,
        },
        Assignable::Boolean(b) => if b.span == t[p].span
            && ((t[p].kind == TokenKind::True && b.value) || (t[p].kind == TokenKind::False && !b.value)) {
            Some(p + 1)
        } else {
            None
        },
        Assignable::Physical(pl) => if t[p].kind == TokenKind::Number || t[p].kind == TokenKind::Plus || t[p].kind == TokenKind::Minus {
            match physical_end(t, p) {
                Ok(q) => if physical_of(pl, t, p, q) { Some(q) } else { None },
                Err(_) => None,
            }
        } else {
            None
        },
        Assignable::Arithmetic(e) => if t[p].kind == TokenKind::Name || t[p].kind == TokenKind::OpenParen {
            expr_parse(e, t, p, 4)
        } else {
            None
        },
    }
}

/// Where the connectable `c`, from `p`, ends: `signal name`, `pin name`, or a field
/// reference.
pub open spec fn connectable_parse(c: Connectable, t: Seq<TokenView>, p: int) -> Option<int> {
    match c {
        Connectable::SignalDef(sd) => if t[p].kind == TokenKind::Signal && is_ident_kind(t[p + 1].kind)
            && ident_of(sd.name, t[p + 1]) && sd.span == span_between(t, p, p + 2) {
            Some(p + 2)
        } else {
            None
        },
        Connectable::PinDef(d) => if t[p].kind == TokenKind::Pin && is_pin_name_kind(t[p + 1].kind)
            && pin_name_of(d.name, t[p + 1]) && d.span == span_between(t, p, p + 2) {
            Some(p + 2)
        } else {
            None
        },
        Connectable::FieldRef(fr) => if t[p].kind == TokenKind::Name {
            match fref_end(t, p) {
                Ok(q) => if fref_of(fr, t, p, q) { Some(q) } else { None },
                Err(_) => None,
            }
        } else {
            None
        },
    }
}

/// Where the connectables `els`, each after an arrow token of kind `arrow`, one
/// after another from `p`, end.
pub open spec fn chain_parse(els: Seq<Connectable>, t: Seq<TokenView>, p: int, arrow: TokenKind) -> Option<int>
    decreases els.len(),
{
    if els.len() == 0 {
        Some(p)
    } else {
        match chain_parse(els.drop_last(), t, p, arrow) {
            Some(m) => if t[m].kind == arrow { connectable_parse(els.last(), t, m + 1) } else { None },
            None => None,
        }
    }
}

/// Kinds that start a simple statement.
pub open spec fn starts_simple(k: TokenKind) -> bool {
    matches!(k, TokenKind::Import | TokenKind::From | TokenKind::Pin | TokenKind::Signal
        | TokenKind::Assert | TokenKind::Pass | TokenKind::Trait | TokenKind::String | TokenKind::Name)
}

/// Kinds that start a block definition.
pub open spec fn starts_block(k: TokenKind) -> bool {
    matches!(k, TokenKind::Module | TokenKind::Component | TokenKind::Interface)
}

/// Kinds that start a statement.
pub open spec fn starts_statement(k: TokenKind) -> bool {
    starts_simple(k) || starts_block(k) || k == TokenKind::Pragma || k == TokenKind::For
}

/// The kind of block that a keyword defines.
pub open spec fn block_kind_of(k: TokenKind) -> BlockKind {
    match k {
        TokenKind::Module => BlockKind::Module,
        TokenKind::Component => BlockKind::Component,
        _ => BlockKind::Interface,
    }
}

/// What a statement that starts with a token of kind `k` can be.
pub open spec fn stmt_fits(s: Statement, k: TokenKind) -> bool {
    match k {
        TokenKind::Pragma => s is Pragma,
        TokenKind::Module | TokenKind::Component | TokenKind::Interface =>
            s matches Statement::BlockDef(b) && b.kind == block_kind_of(k),
        TokenKind::For => s is For,
        TokenKind::Import => s is Import || s is DepImport,
        TokenKind::From => s matches Statement::Import(i) && i.from_path is Some,
        TokenKind::Pin => s is PinDeclaration,
        TokenKind::Signal => s is SignalDef || s is Connection || s is DirectedConnection,
        TokenKind::Assert => s is Assert,
        TokenKind::Pass => s is Pass,
        TokenKind::Trait => s is Trait,
        TokenKind::String => s is StringStmt,
        TokenKind::Name => s is Assignment || s is CumAssignment || s is SetAssignment
            || s is Connection || s is DirectedConnection || s is Retype || s is Declaration,
        _ => false,
    }
}

/// `n` is the pin name that the token `tv` writes.
pub open spec fn pin_name_of(n: PinName, tv: TokenView) -> bool {
    match tv.kind {
        TokenKind::Name => n matches PinName::Identifier(id) && ident_of(id, tv),
        TokenKind::Number => n matches PinName::Number(x) && number_of(x, tv),
        TokenKind::String => n matches PinName::String(s) && string_of(s, tv),
        _ => false,
    }
}

/// The connection operators `~`, `~>` and `<~`.
pub open spec fn is_connect_op(k: TokenKind) -> bool {
    matches!(k, TokenKind::Wire | TokenKind::Sperm | TokenKind::LSperm)
}

/// Kinds that can name a pin.
pub open spec fn is_pin_name_kind(k: TokenKind) -> bool {
    matches!(k, TokenKind::Name | TokenKind::Number | TokenKind::String)
}

/// The Ato parser: a token stream and a position in it.
pub struct Parser<'a> {
    source: &'a str,
    tokens: Vec<Token>,
    pos: usize,
}

impl<'a> Parser<'a> {
    /// The token stream.
    pub closed spec fn toks(&self) -> Seq<TokenView> {
        self.tokens@.map_values(|t: Token| t@)
    }

    /// The position of the current token.
    pub closed spec fn at(&self) -> int {
        self.pos as int
    }

    /// The stream ends with the end-of-file token and the position is within it.
    pub closed spec fn wf(&self) -> bool {
        &&& self.tokens@.len() > 0
        &&& self.tokens@.last().kind == TokenKind::Eof
        &&& self.pos < self.tokens@.len()
    }

    /// `after` is this parser later on: the same stream, at this position or further.
    pub open spec fn kept(&self, after: &Parser<'a>) -> bool {
        &&& after.wf()
        &&& after.toks() == self.toks()
        &&& self.at() <= after.at()
    }

    /// The token at position `i`.
    pub open spec fn tok(&self, i: int) -> TokenView {
        self.toks()[i]
    }

    /// The current token.
    pub open spec fn cur(&self) -> TokenView {
        self.tok(self.at())
    }

    proof fn lemma_wf(&self)
        requires
            self.wf(),
        ensures
            self.toks().len() == self.tokens@.len(),
            self.toks().last().kind == TokenKind::Eof,
            0 <= self.at() < self.toks().len(),
            self.tok(self.at()).kind != TokenKind::Eof ==> self.at() + 1 < self.toks().len(),
            forall|i: int| 0 <= i < self.tokens@.len() ==> #[trigger] self.toks()[i] == self.tokens@[i]@,
    {
    }

    /// A parser for `source`, at its first token.
    pub fn new(source: &'a str) -> (p: Self)
        requires
            within_limits(source@),
        ensures
            p.wf(),
            p.toks() == spec_lex(source@),
            p.at() == 0,
            forall|k: int| 0 <= k < p.toks().len() - 1 ==> #[trigger] p.toks()[k].kind != TokenKind::Eof,
    {
        let (tokens, _errors) = lex(source);
        proof {
            lemma_lex_shape(source@);
            lemma_lex_eof_last(source@);
            assert(tokens@.len() == spec_lex(source@).len());
        }
        Parser { source, tokens, pos: 0 }
    }

    // === Token navigation ===

    /// The current token.
    fn current(&self) -> (r: &Token)
        requires
            self.wf(),
        ensures
            r@ == self.tok(self.at()),
    {
        proof { self.lemma_wf(); }
        &self.tokens[self.pos]
    }

    /// The kind of the current token.
    fn current_kind(&self) -> (r: TokenKind)
        requires
            self.wf(),
        ensures
            r == self.tok(self.at()).kind,
    {
        self.current().kind
    }

    /// The span of the current token.
    fn current_span(&self) -> (r: Span)
        requires
            self.wf(),
        ensures
            r == self.tok(self.at()).span,
    {
        self.current().span
    }

    /// The span of the previous token, or of the current one at the start.
    fn previous_span(&self) -> (r: Span)
        requires
            self.wf(),
        ensures
            r == prev_span(self.toks(), self.at()),
    {
        proof { self.lemma_wf(); }
        if self.pos > 0 {
            self.tokens[self.pos - 1].span
        } else {
            self.current_span()
        }
    }

    /// Whether the current token is the end of the file.
    fn is_at_end(&self) -> (r: bool)
        requires
            self.wf(),
        ensures
            r == (self.tok(self.at()).kind == TokenKind::Eof),
    {
        self.current_kind() == TokenKind::Eof
    }

    /// Whether the current token is of `kind`.
    fn check(&self, kind: TokenKind) -> (r: bool)
        requires
            self.wf(),
        ensures
            r == (self.tok(self.at()).kind == kind),
    {
        self.current_kind() == kind
    }

    /// Whether the current token is of one of `kinds`.
    fn check_any(&self, kinds: &[TokenKind]) -> (r: bool)
        requires
            self.wf(),
        ensures
            r == kinds@.contains(self.tok(self.at()).kind),
    {
        let k = self.current_kind();
        let mut i: usize = 0;
        while i < kinds.len()
            invariant
                i <= kinds@.len(),
                k == self.tok(self.at()).kind,
                forall|j: int| 0 <= j < i ==> kinds@[j] != k,
            decreases kinds@.len() - i,
        {
            if kinds[i] == k {
                return true;
            }
            i = i + 1;
        }
        false
    }

    /// Moves past the current token unless it is the end of the file.
    fn advance(&mut self)
        requires
            old(self).wf(),
        ensures
            old(self).kept(final(self)),
            final(self).at() == (if old(self).cur().kind == TokenKind::Eof {
                old(self).at()
            } else {
                old(self).at() + 1
            }),
    {
        proof { self.lemma_wf(); }
        let n = self.tokens.len();
        if !self.is_at_end() {
            self.pos = self.pos + 1;
        }
    }

    /// Consumes a token of `kind` and returns it, or fails.
    fn expect(&mut self, kind: TokenKind) -> (r: Result<Token, ParseError>)
        requires
            old(self).wf(),
            kind != TokenKind::Eof,
        ensures
            old(self).kept(final(self)),
            old(self).cur().kind == kind ==> (r matches Ok(t)
                && t@ == old(self).cur() && final(self).at() == old(self).at() + 1),
            old(self).cur().kind != kind ==> (r matches Err(e)
                && is_expect_error(e, kind, old(self).cur())
                && final(self).at() == old(self).at()),
    {
        if self.check(kind) {
            let t = self.current().duplicate();
            self.advance();
            Ok(t)
        } else if self.is_at_end() {
            Err(ParseError::unexpected_eof(kind.debug_name(), self.current_span()))
        } else {
            Err(ParseError::unexpected_token(kind.debug_name(), self.current_kind(), self.current_span()))
        }
    }

    /// Consumes a token of `kind` if it is the current one.
    fn match_token(&mut self, kind: TokenKind) -> (r: bool)
        requires
            old(self).wf(),
            kind != TokenKind::Eof,
        ensures
            old(self).kept(final(self)),
            r == (old(self).cur().kind == kind),
            final(self).at() == if r { old(self).at() + 1 } else { old(self).at() },
    {
        if self.check(kind) {
            self.advance();
            true
        } else {
            false
        }
    }

    /// The kind of the token after the current one, if there is one.
    fn peek_kind(&self) -> (r: Option<TokenKind>)
        requires
            self.wf(),
        ensures
            self.at() + 1 < self.toks().len() ==> r == Some(self.tok(self.at() + 1).kind),
            self.at() + 1 >= self.toks().len() ==> r is None,
    {
        proof { self.lemma_wf(); }
        if self.pos < self.tokens.len() - 1 {
            Some(self.tokens[self.pos + 1].kind)
        } else {
            None
        }
    }

    /// Whether the token after the current one is of `kind`.
    fn peek_is(&self, kind: TokenKind) -> (r: bool)
        requires
            self.wf(),
        ensures
            r == (self.at() + 1 < self.toks().len() && self.tok(self.at() + 1).kind == kind),
    {
        match self.peek_kind() {
            Some(k) => k == kind,
            None => false,
        }
    }

    // === Helpers ===

    /// Parses an identifier: a name, or a reserved word that may stand as one.
    fn parse_identifier(&mut self) -> (r: Result<Identifier, ParseError>)
        requires
            old(self).wf(),
        ensures
            old(self).kept(final(self)),
            is_ident_kind(old(self).cur().kind) ==> (r matches Ok(id)
                && ident_of(id, old(self).cur()) && final(self).at() == old(self).at() + 1),
            !is_ident_kind(old(self).cur().kind) ==> (r matches Err(e)
                && is_expected(e, "identifier"@, old(self).cur().span)
                && final(self).at() == old(self).at()),
    {
        let k = self.current_kind();
        let is_contextual_keyword = matches!(k, TokenKind::Int | TokenKind::Float | TokenKind::StringKw
            | TokenKind::Str | TokenKind::Bytes | TokenKind::Parameter | TokenKind::Param
            | TokenKind::Test | TokenKind::Require | TokenKind::Requires | TokenKind::Check
            | TokenKind::Report | TokenKind::Ensure);
        if self.check(TokenKind::Name) || is_contextual_keyword {
            let t = self.current();
            let id = Identifier { name: t.text.clone(), span: t.span };
            self.advance();
            Ok(id)
        } else {
            Err(ParseError::expected("identifier", self.current_span()))
        }
    }

    /// Parses a string literal.
    fn parse_string_literal(&mut self) -> (r: Result<StringLiteral, ParseError>)
        requires
            old(self).wf(),
        ensures
            old(self).kept(final(self)),
            old(self).cur().kind == TokenKind::String ==> (r matches Ok(s)
                && string_of(s, old(self).cur()) && final(self).at() == old(self).at() + 1),
            old(self).cur().kind != TokenKind::String ==> (r matches Err(e)
                && is_expect_error(e, TokenKind::String, old(self).cur())
                && final(self).at() == old(self).at()),
    {
        let token = self.expect(TokenKind::String)?;
        Ok(StringLiteral { value: token.text, span: token.span })
    }

    /// Parses a number literal.
    fn parse_number_literal(&mut self) -> (r: Result<NumberLiteral, ParseError>)
        requires
            old(self).wf(),
        ensures
            old(self).kept(final(self)),
            old(self).cur().kind == TokenKind::Number ==> (r matches Ok(n)
                && number_of(n, old(self).cur()) && final(self).at() == old(self).at() + 1),
            old(self).cur().kind != TokenKind::Number ==> (r matches Err(e)
                && is_expect_error(e, TokenKind::Number, old(self).cur())
                && final(self).at() == old(self).at()),
    {
        let token = self.expect(TokenKind::Number)?;
        Ok(NumberLiteral { value: token.text, span: token.span })
    }

    /// Parses `True` or `False`.
    fn parse_bool_literal(&mut self) -> (r: Result<BoolLiteral, ParseError>)
        requires
            old(self).wf(),
        ensures
            old(self).kept(final(self)),
            old(self).cur().kind == TokenKind::True ==> r == Ok::<BoolLiteral, ParseError>(
                BoolLiteral { value: true, span: old(self).cur().span })
                && final(self).at() == old(self).at() + 1,
            old(self).cur().kind == TokenKind::False ==> r == Ok::<BoolLiteral, ParseError>(
                BoolLiteral { value: false, span: old(self).cur().span })
                && final(self).at() == old(self).at() + 1,
            !(old(self).cur().kind == TokenKind::True
                || old(self).cur().kind == TokenKind::False) ==> (r matches Err(e)
                && is_expected(e, "boolean"@, old(self).cur().span)
                && final(self).at() == old(self).at()),
    {
        let span = self.current_span();
        let value = if self.match_token(TokenKind::True) {
            true
        } else if self.match_token(TokenKind::False) {
            false
        } else {
            return Err(ParseError::expected("boolean", span));
        };
        Ok(BoolLiteral { value, span })
    }
    /// Parses a dotted type reference: `Name.Name.Name`.
    fn parse_type_reference(&mut self) -> (r: Result<TypeRef, ParseError>)
        requires
            old(self).wf(),
        ensures
            old(self).kept(final(self)),
            match type_ref_end(old(self).toks(), old(self).at()) {
                Ok(q) => r matches Ok(tr) && type_ref_of(tr, old(self).toks(), old(self).at(), q)
                    && final(self).at() == q,
                Err(f) => r matches Err(e) && fail_is(e, f, old(self).toks()) && final(self).at() == f.pos(),
            },
    {
        let ghost t = self.toks();
        let ghost p = self.at();
        proof { self.lemma_wf(); }
        let start_span = self.current_span();
        let first = self.parse_identifier()?;
        let mut parts: Vec<Identifier> = Vec::new();
        parts.push(first);
        while self.check(TokenKind::Dot)
            invariant
                self.wf(),
                self.toks() == t,
                t.len() > 0 && t.last().kind == TokenKind::Eof,
                p < self.at() < t.len(),
                parts@.len() * 2 == self.at() - p + 1,
                t == old(self).toks(),
                p == old(self).at(),
                start_span == t[p].span,
                forall|i: int| 0 <= i < parts@.len() ==> ident_of(#[trigger] parts@[i], t[p + 2 * i]),
                dotted_end(t, self.at()) == type_ref_end(t, p),
            decreases t.len() - self.at(),
        {
            proof { self.lemma_wf(); }
            self.advance();
            let id = self.parse_identifier()?;
            parts.push(id);
        }
        proof { self.lemma_wf(); }
        let end_span = self.previous_span();
        Ok(TypeRef { parts, span: start_span.merge(&end_span) })
    }

    /// Parses a literal: a number, a string or a boolean.
    fn parse_literal(&mut self) -> (r: Result<Literal, ParseError>)
        requires
            old(self).wf(),
        ensures
            old(self).kept(final(self)),
            is_literal_kind(old(self).cur().kind) ==> (r matches Ok(l) && literal_of(l, old(self).cur())
                && final(self).at() == old(self).at() + 1),
            !is_literal_kind(old(self).cur().kind) ==> (r matches Err(e)
                && is_expected(e, "literal"@, old(self).cur().span) && final(self).at() == old(self).at()),
    {
        match self.current_kind() {
            TokenKind::Number => {
                let num = self.parse_number_literal()?;
                Ok(Literal::Number(num))
            },
            TokenKind::String => {
                let s = self.parse_string_literal()?;
                Ok(Literal::String(s))
            },
            TokenKind::True | TokenKind::False => {
                let b = self.parse_bool_literal()?;
                Ok(Literal::Bool(b))
            },
            _ => Err(ParseError::expected("literal", self.current_span())),
        }
    }

    /// Parses one template argument: `name = literal`.
    fn parse_template_arg(&mut self) -> (r: Result<TemplateArg, ParseError>)
        requires
            old(self).wf(),
        ensures
            old(self).kept(final(self)),
            match arg_end(old(self).toks(), old(self).at()) {
                Ok(q) => r matches Ok(a) && arg_of(a, old(self).toks(), old(self).at()) && final(self).at() == q,
                Err(f) => r matches Err(e) && fail_is(e, f, old(self).toks()) && final(self).at() == f.pos(),
            },
    {
        proof { self.lemma_wf(); }
        let start_span = self.current_span();
        let name = self.parse_identifier()?;
        self.expect(TokenKind::Assign)?;
        let value = self.parse_literal()?;
        let end_span = self.previous_span();
        Ok(TemplateArg { name, value, span: start_span.merge(&end_span) })
    }

    /// Parses a template: `<name=value, ...>`, with an optional trailing comma.
    fn parse_template(&mut self) -> (r: Result<Template, ParseError>)
        requires
            old(self).wf(),
        ensures
            old(self).kept(final(self)),
            match template_end(old(self).toks(), old(self).at()) {
                Ok(q) => r matches Ok(tpl) && template_of(tpl, old(self).toks(), old(self).at(), q)
                    && final(self).at() == q,
                Err(f) => r matches Err(e) && fail_is(e, f, old(self).toks()) && final(self).at() == f.pos(),
            },
    {
        let ghost t = self.toks();
        let ghost p = self.at();
        proof { self.lemma_wf(); }
        let start_span = self.current_span();
        self.expect(TokenKind::LessThan)?;
        let mut args: Vec<TemplateArg> = Vec::new();
        if !self.check(TokenKind::GreaterThan) {
            let a = self.parse_template_arg()?;
            args.push(a);
            while self.check(TokenKind::Comma) && !self.peek_is(TokenKind::GreaterThan)
                invariant
                    self.wf(),
                    self.toks() == t,
                    t == old(self).toks(),
                    p == old(self).at(),
                    t.len() > 0 && t.last().kind == TokenKind::Eof,
                    p < self.at() < t.len(),
                    t[p].kind == TokenKind::LessThan,
                    t[p + 1].kind != TokenKind::GreaterThan,
                    start_span == t[p].span,
                    4 * args@.len() == self.at() - p,
                    forall|i: int| 0 <= i < args@.len() ==> arg_of(#[trigger] args@[i], t, p + 1 + 4 * i),
                    args_end(t, self.at()) == template_args_end(t, p),
                decreases t.len() - self.at(),
            {
                proof { self.lemma_wf(); }
                self.advance();
                let a = self.parse_template_arg()?;
                args.push(a);
            }
            if self.check(TokenKind::Comma) {
                self.advance();
            }
        }
        self.expect(TokenKind::GreaterThan)?;
        let end_span = self.previous_span();
        Ok(Template { args, span: start_span.merge(&end_span) })
    }

    /// Parses a slice: `[start:stop:step]` or `[::step]`, each bound optional.
    fn parse_slice(&mut self) -> (r: Result<Slice, ParseError>)
        requires
            old(self).wf(),
        ensures
            old(self).kept(final(self)),
            match slice_end(old(self).toks(), old(self).at()) {
                Ok(q) => r matches Ok(s) && slice_of(s, old(self).toks(), old(self).at(), q) && final(self).at() == q,
                Err(f) => r matches Err(e) && fail_is(e, f, old(self).toks()) && final(self).at() == f.pos(),
            },
    {
        proof { self.lemma_wf(); }
        let start_span = self.current_span();
        self.expect(TokenKind::OpenBracket)?;
        let mut start: Option<NumberLiteral> = None;
        let mut stop: Option<NumberLiteral> = None;
        let mut step: Option<NumberLiteral> = None;
        if self.match_token(TokenKind::DoubleColon) {
            if self.check(TokenKind::Number) {
                step = Some(self.parse_number_literal()?);
            }
        } else {
            if self.check(TokenKind::Number) {
                start = Some(self.parse_number_literal()?);
            }
            if self.match_token(TokenKind::Colon) {
                if self.check(TokenKind::Number) {
                    stop = Some(self.parse_number_literal()?);
                }
                if self.match_token(TokenKind::Colon) {
                    if self.check(TokenKind::Number) {
                        step = Some(self.parse_number_literal()?);
                    }
                }
            }
        }
        self.expect(TokenKind::CloseBracket)?;
        let end_span = self.previous_span();
        Ok(Slice { start, stop, step, span: start_span.merge(&end_span) })
    }

    /// Parses a quantity: an optional sign, a number and an optional unit.
    fn parse_quantity(&mut self) -> (r: Result<Quantity, ParseError>)
        requires
            old(self).wf(),
        ensures
            old(self).kept(final(self)),
            match quantity_end(old(self).toks(), old(self).at()) {
                Ok(q) => r matches Ok(qv) && quantity_of(qv, old(self).toks(), old(self).at(), q)
                    && final(self).at() == q,
                Err(f) => r matches Err(e) && fail_is(e, f, old(self).toks()) && final(self).at() == f.pos(),
            },
    {
        proof { self.lemma_wf(); }
        let start_span = self.current_span();
        let negative = self.match_token(TokenKind::Minus);
        if !negative {
            self.match_token(TokenKind::Plus);
        }
        let num_token = self.expect(TokenKind::Number)?;
        let value = if negative {
            let mut v = String::new();
            crate::text::push_char(&mut v, '-');
            crate::text::push_str(&mut v, num_token.text.as_str());
            v
        } else {
            num_token.text
        };
        let number = NumberLiteral { value, span: num_token.span };
        let unit = if self.check(TokenKind::Name) {
            Some(self.parse_identifier()?)
        } else {
            None
        };
        let end_span = self.previous_span();
        Ok(Quantity { number, unit, span: start_span.merge(&end_span) })
    }

    /// Parses a tolerance: a number, then `%` or an optional unit.
    fn parse_tolerance(&mut self) -> (r: Result<Tolerance, ParseError>)
        requires
            old(self).wf(),
        ensures
            old(self).kept(final(self)),
            match tolerance_end(old(self).toks(), old(self).at()) {
                Ok(q) => r matches Ok(tol) && tolerance_of(tol, old(self).toks(), old(self).at(), q)
                    && final(self).at() == q,
                Err(f) => r matches Err(e) && fail_is(e, f, old(self).toks()) && final(self).at() == f.pos(),
            },
    {
        proof { self.lemma_wf(); }
        let start_span = self.current_span();
        let num_token = self.expect(TokenKind::Number)?;
        let value = num_token.text;
        let is_percent = self.match_token(TokenKind::Percent);
        let unit = if !is_percent && self.check(TokenKind::Name) {
            Some(self.parse_identifier()?)
        } else {
            None
        };
        let end_span = self.previous_span();
        Ok(Tolerance { value, is_percent, unit, span: start_span.merge(&end_span) })
    }

    /// Parses a physical literal: a quantity, a range `a to b`, or `a +/- tolerance`.
    pub fn parse_physical_literal(&mut self) -> (r: Result<PhysicalLiteral, ParseError>)
        requires
            old(self).wf(),
        ensures
            old(self).kept(final(self)),
            match physical_end(old(self).toks(), old(self).at()) {
                Ok(q) => r matches Ok(pl) && physical_of(pl, old(self).toks(), old(self).at(), q)
                    && final(self).at() == q,
                Err(f) => r matches Err(e) && fail_is(e, f, old(self).toks()) && final(self).at() == f.pos(),
            },
    {
        proof { self.lemma_wf(); }
        let start_span = self.current_span();
        let quantity = self.parse_quantity()?;
        if self.match_token(TokenKind::To) {
            let to_quantity = self.parse_quantity()?;
            let end_span = self.previous_span();
            return Ok(PhysicalLiteral::Range(QuantityRange {
                from: quantity,
                to: to_quantity,
                span: start_span.merge(&end_span),
            }));
        }
        if self.match_token(TokenKind::PlusOrMinus) {
            let tolerance = self.parse_tolerance()?;
            let end_span = self.previous_span();
            return Ok(PhysicalLiteral::Bilateral(BilateralQuantity {
                base: quantity,
                tolerance,
                span: start_span.merge(&end_span),
            }));
        }
        Ok(PhysicalLiteral::Quantity(quantity))
    }

    /// Parses `new Type`, with an optional count `[n]` and template `<...>`.
    pub fn parse_new_expression(&mut self) -> (r: Result<NewExpr, ParseError>)
        requires
            old(self).wf(),
        ensures
            old(self).kept(final(self)),
            match new_end(old(self).toks(), old(self).at()) {
                Ok(q) => r matches Ok(ne) && new_of(ne, old(self).toks(), old(self).at(), q)
                    && final(self).at() == q,
                Err(f) => r matches Err(e) && fail_is(e, f, old(self).toks()) && final(self).at() == f.pos(),
            },
    {
        proof { self.lemma_wf(); }
        let start_span = self.current_span();
        self.expect(TokenKind::New)?;
        let type_ref = self.parse_type_reference()?;
        let count = if self.match_token(TokenKind::OpenBracket) {
            let num = self.parse_number_literal()?;
            self.expect(TokenKind::CloseBracket)?;
            Some(num)
        } else {
            None
        };
        let template = if self.check(TokenKind::LessThan) {
            Some(self.parse_template()?)
        } else {
            None
        };
        let end_span = self.previous_span();
        Ok(NewExpr { type_ref, count, template, span: start_span.merge(&end_span) })
    }
    /// Parses one part of a field reference: a name and an optional `[index]`.
    fn parse_field_reference_part(&mut self) -> (r: Result<FieldRefPart, ParseError>)
        requires
            old(self).wf(),
        ensures
            old(self).kept(final(self)),
            match part_end(old(self).toks(), old(self).at()) {
                Ok(q) => r matches Ok(part) && part_of(part, old(self).toks(), old(self).at())
                    && final(self).at() == q,
                Err(f) => r matches Err(e) && fail_is(e, f, old(self).toks()) && final(self).at() == f.pos(),
            },
    {
        proof { self.lemma_wf(); }
        let start_span = self.current_span();
        let name = self.parse_identifier()?;
        let index = if self.match_token(TokenKind::OpenBracket) {
            let num_token = self.expect(TokenKind::Number)?;
            let num = NumberLiteral { value: num_token.text, span: num_token.span };
            self.expect(TokenKind::CloseBracket)?;
            Some(num)
        } else {
            None
        };
        let end_span = self.previous_span();
        Ok(FieldRefPart { name, index, span: start_span.merge(&end_span) })
    }

    /// Parses a field reference: `name.name[index].name`, with an optional trailing
    /// pin number `.1`.
    fn parse_field_reference(&mut self) -> (r: Result<FieldRef, ParseError>)
        requires
            old(self).wf(),
        ensures
            old(self).kept(final(self)),
            match fref_end(old(self).toks(), old(self).at()) {
                Ok(q) => r matches Ok(fr) && fref_of(fr, old(self).toks(), old(self).at(), q)
                    && final(self).at() == q,
                Err(f) => r matches Err(e) && fail_is(e, f, old(self).toks()) && final(self).at() == f.pos(),
            },
    {
        let ghost t = self.toks();
        let ghost p = self.at();
        proof { self.lemma_wf(); }
        let start_span = self.current_span();
        let first = self.parse_field_reference_part()?;
        let ghost q0 = self.at();
        let mut parts: Vec<FieldRefPart> = Vec::new();
        parts.push(first);
        let ghost mut st: Seq<int> = seq![p];
        while self.check(TokenKind::Dot)
            invariant
                self.wf(),
                self.toks() == t,
                t == old(self).toks(),
                p == old(self).at(),
                t.len() > 0 && t.last().kind == TokenKind::Eof,
                p < self.at() < t.len(),
                start_span == t[p].span,
                part_end(t, p) == Ok::<int, Fail>(q0),
                fref_rest(t, self.at()) == fref_rest(t, q0),
                st + fref_rest_starts(t, self.at()) == seq![p] + fref_rest_starts(t, q0),
                parts@.len() == st.len(),
                forall|i: int| 0 <= i < st.len() ==> part_of(#[trigger] parts@[i], t, st[i]),
                t[self.at() - 1].kind != TokenKind::Number,
            decreases t.len() - self.at(),
        {
            proof { self.lemma_wf(); }
            if self.peek_is(TokenKind::Number) {
                self.advance();
                proof { self.lemma_wf(); }
                let num_token = self.current().duplicate();
                self.advance();
                let pin_ref = Some(NumberLiteral { value: num_token.text, span: num_token.span });
                let end_span = self.previous_span();
                proof {
                    assert(st =~= seq![p] + fref_rest_starts(t, q0));
                }
                return Ok(FieldRef { parts, pin_ref, span: start_span.merge(&end_span) });
            }
            let ghost dot = self.at();
            self.advance();
            let part = self.parse_field_reference_part()?;
            proof {
                assert(fref_rest_starts(t, dot) == seq![dot + 1] + fref_rest_starts(t, self.at()));
                assert(st.push(dot + 1) + fref_rest_starts(t, self.at()) =~= st + fref_rest_starts(t, dot));
                st = st.push(dot + 1);
            }
            parts.push(part);
        }
        proof {
            self.lemma_wf();
            assert(st =~= seq![p] + fref_rest_starts(t, q0));
        }
        let end_span = self.previous_span();
        Ok(FieldRef { parts, pin_ref: None, span: start_span.merge(&end_span) })
    }
    /// The parse from here stopped where `e` says it ends, successfully, or failed as
    /// `e` says.
    pub open spec fn ends<T>(&self, after: &Parser<'a>, r: Result<T, ParseError>, e: Result<int, Fail>) -> bool {
        match e {
            Ok(q) => r is Ok && after.at() == q,
            Err(f) => r matches Err(x) && fail_is(x, f, self.toks()) && after.at() == f.pos(),
        }
    }

    /// What every expression parse keeps: the parser moves on, past at least one token
    /// on success; a token that cannot start an expression is refused where it stands;
    /// and every expression but a group spans exactly the tokens it was parsed from.
    pub open spec fn expr_step(&self, after: &Parser<'a>, r: Result<Expression, ParseError>) -> bool {
        &&& self.kept(after)
        &&& r is Ok ==> self.at() < after.at()
        &&& !starts_expression(self.cur().kind) ==> (r matches Err(e)
            && is_expected(e, "expression"@, self.cur().span) && after.at() == self.at())
        &&& (r matches Ok(e) && !(e is Group)) ==> r->Ok_0.spec_span() == span_between(
            self.toks(), self.at(), after.at())
    }

    /// Parses an arithmetic expression: sums joined by `|` and `&`, sums of terms,
    /// terms of powers, powers of function calls and atoms.
    pub fn parse_arithmetic_expression(&mut self) -> (r: Result<Expression, ParseError>)
        requires
            old(self).wf(),
        ensures
            old(self).expr_step(final(self), r),
            r matches Ok(e) ==> expr_is(e, old(self).toks(), old(self).at(), final(self).at(), 4),
            old(self).ends(final(self), r, expr_end(old(self).toks(), old(self).at(), 4)),
        decreases old(self).toks().len() - old(self).at(), 6int,
    {
        proof { self.lemma_wf(); }
        self.parse_bitwise()
    }

    /// Parses sums joined by `|` and `&`, left to right.
    fn parse_bitwise(&mut self) -> (r: Result<Expression, ParseError>)
        requires
            old(self).wf(),
        ensures
            old(self).expr_step(final(self), r),
            r matches Ok(e) ==> expr_is(e, old(self).toks(), old(self).at(), final(self).at(), 3)
                && !token_at_level(final(self).cur().kind, 3),
            old(self).ends(final(self), r, expr_end(old(self).toks(), old(self).at(), 3)),
        decreases old(self).toks().len() - old(self).at(), 5int,
    {
        let ghost t = self.toks();
        let ghost p = self.at();
        proof { self.lemma_wf(); }
        let start_span = self.current_span();
        proof {
            assert(expr_end(t, p, 3) == match expr_end(t, p, 2) {
                Ok(m) => if p < m <= t.len() { rest_end(t, m, 3) } else { Ok(m) },
                Err(f) => Err::<int, Fail>(f),
            });
        }
        let mut left = self.parse_sum()?;
        proof { self.lemma_wf(); }
        proof {
            if left is Binary {
                lemma_parse_rank(left, t, p, 2);
            }
        }
        while self.check(TokenKind::OrOp) || self.check(TokenKind::AndOp)
            invariant
                self.wf(),
                self.toks() == t,
                t == old(self).toks(),
                p == old(self).at(),
                p < self.at(),
                start_span == t[p].span,
                starts_expression(t[p].kind),
                expr_is(left, t, p, self.at(), 3),
                !(left is Group) ==> left.spec_span() == span_between(t, p, self.at()),
                expr_end(t, p, 3) == rest_end(t, self.at(), 3),
            decreases t.len() - self.at(),
        {
            let ghost old_left = left;
            proof { self.lemma_wf(); }
            let ghost m = self.at();
            let op = if self.match_token(TokenKind::OrOp) {
                BinaryOp::BitOr
            } else {
                self.advance();
                BinaryOp::BitAnd
            };
            proof {
                assert(rest_end(t, m, 3) == match expr_end(t, m + 1, 2) {
                    Ok(q) => if m < q <= t.len() { rest_end(t, q, 3) } else { Ok(q) },
                    Err(f) => Err::<int, Fail>(f),
                });
            }
            let right = self.parse_sum()?;
            proof { self.lemma_wf(); }
            let end_span = self.previous_span();
            left = Expression::Binary(Box::new(BinaryExpr {
                left,
                operator: op,
                right,
                span: start_span.merge(&end_span),
            }));
            proof {
                let b = left->Binary_0;
                assert(b.left == old_left);
            }
        }
        proof {
            self.lemma_wf();
            assert(rest_end(t, self.at(), 3) == Ok::<int, Fail>(self.at()));
        }
        Ok(left)
    }

    /// Parses terms joined by `+` and `-`, left to right.
    fn parse_sum(&mut self) -> (r: Result<Expression, ParseError>)
        requires
            old(self).wf(),
        ensures
            old(self).expr_step(final(self), r),
            r matches Ok(e) ==> expr_is(e, old(self).toks(), old(self).at(), final(self).at(), 2)
                && !token_at_level(final(self).cur().kind, 2),
            old(self).ends(final(self), r, expr_end(old(self).toks(), old(self).at(), 2)),
        decreases old(self).toks().len() - old(self).at(), 4int,
    {
        let ghost t = self.toks();
        let ghost p = self.at();
        proof { self.lemma_wf(); }
        let start_span = self.current_span();
        proof {
            assert(expr_end(t, p, 2) == match expr_end(t, p, 1) {
                Ok(m) => if p < m <= t.len() { rest_end(t, m, 2) } else { Ok(m) },
                Err(f) => Err::<int, Fail>(f),
            });
        }
        let mut left = self.parse_term()?;
        proof { self.lemma_wf(); }
        proof {
            if left is Binary {
                lemma_parse_rank(left, t, p, 1);
            }
        }
        while self.check(TokenKind::Plus) || self.check(TokenKind::Minus)
            invariant
                self.wf(),
                self.toks() == t,
                t == old(self).toks(),
                p == old(self).at(),
                p < self.at(),
                start_span == t[p].span,
                starts_expression(t[p].kind),
                expr_is(left, t, p, self.at(), 2),
                !(left is Group) ==> left.spec_span() == span_between(t, p, self.at()),
                expr_end(t, p, 2) == rest_end(t, self.at(), 2),
            decreases t.len() - self.at(),
        {
            let ghost old_left = left;
            proof { self.lemma_wf(); }
            let ghost m = self.at();
            let op = if self.match_token(TokenKind::Plus) {
                BinaryOp::Add
            } else {
                self.advance();
                BinaryOp::Sub
            };
            proof {
                assert(rest_end(t, m, 2) == match expr_end(t, m + 1, 1) {
                    Ok(q) => if m < q <= t.len() { rest_end(t, q, 2) } else { Ok(q) },
                    Err(f) => Err::<int, Fail>(f),
                });
            }
            let right = self.parse_term()?;
            proof { self.lemma_wf(); }
            let end_span = self.previous_span();
            left = Expression::Binary(Box::new(BinaryExpr {
                left,
                operator: op,
                right,
                span: start_span.merge(&end_span),
            }));
            proof {
                let b = left->Binary_0;
                assert(b.left == old_left);
            }
        }
        proof {
            self.lemma_wf();
            assert(rest_end(t, self.at(), 2) == Ok::<int, Fail>(self.at()));
        }
        Ok(left)
    }

    /// Parses powers joined by `*` and `/`, left to right.
    fn parse_term(&mut self) -> (r: Result<Expression, ParseError>)
        requires
            old(self).wf(),
        ensures
            old(self).expr_step(final(self), r),
            r matches Ok(e) ==> expr_is(e, old(self).toks(), old(self).at(), final(self).at(), 1)
                && !token_at_level(final(self).cur().kind, 1),
            old(self).ends(final(self), r, expr_end(old(self).toks(), old(self).at(), 1)),
        decreases old(self).toks().len() - old(self).at(), 3int,
    {
        let ghost t = self.toks();
        let ghost p = self.at();
        proof { self.lemma_wf(); }
        let start_span = self.current_span();
        proof {
            assert(expr_end(t, p, 1) == match expr_end(t, p, 0) {
                Ok(m) => if p < m <= t.len() { rest_end(t, m, 1) } else { Ok(m) },
                Err(f) => Err::<int, Fail>(f),
            });
        }
        let mut left = self.parse_power()?;
        proof { self.lemma_wf(); }
        proof {
            if left is Binary {
                lemma_parse_rank(left, t, p, 0);
            }
        }
        while self.check(TokenKind::Star) || self.check(TokenKind::Div)
            invariant
                self.wf(),
                self.toks() == t,
                t == old(self).toks(),
                p == old(self).at(),
                p < self.at(),
                start_span == t[p].span,
                starts_expression(t[p].kind),
                expr_is(left, t, p, self.at(), 1),
                !(left is Group) ==> left.spec_span() == span_between(t, p, self.at()),
                expr_end(t, p, 1) == rest_end(t, self.at(), 1),
            decreases t.len() - self.at(),
        {
            let ghost old_left = left;
            proof { self.lemma_wf(); }
            let ghost m = self.at();
            let op = if self.match_token(TokenKind::Star) {
                BinaryOp::Mul
            } else {
                self.advance();
                BinaryOp::Div
            };
            proof {
                assert(rest_end(t, m, 1) == match expr_end(t, m + 1, 0) {
                    Ok(q) => if m < q <= t.len() { rest_end(t, q, 1) } else { Ok(q) },
                    Err(f) => Err::<int, Fail>(f),
                });
            }
            let right = self.parse_power()?;
            proof { self.lemma_wf(); }
            let end_span = self.previous_span();
            left = Expression::Binary(Box::new(BinaryExpr {
                left,
                operator: op,
                right,
                span: start_span.merge(&end_span),
            }));
            proof {
                let b = left->Binary_0;
                assert(b.left == old_left);
            }
        }
        proof {
            self.lemma_wf();
            assert(rest_end(t, self.at(), 1) == Ok::<int, Fail>(self.at()));
        }
        Ok(left)
    }

    /// Parses `base ** exponent`, or just a base; the operator does not chain.
    fn parse_power(&mut self) -> (r: Result<Expression, ParseError>)
        requires
            old(self).wf(),
        ensures
            old(self).expr_step(final(self), r),
            r matches Ok(e) ==> expr_is(e, old(self).toks(), old(self).at(), final(self).at(), 0),
            old(self).ends(final(self), r, expr_end(old(self).toks(), old(self).at(), 0)),
        decreases old(self).toks().len() - old(self).at(), 2int,
    {
        proof { self.lemma_wf(); }
        let start_span = self.current_span();
        let ghost t = self.toks();
        let ghost p = self.at();
        proof {
            assert(expr_end(t, p, 0) == match expr_end(t, p, -1) {
                Ok(m) => if p < m < t.len() && t[m].kind == TokenKind::Power { expr_end(t, m + 1, -1) } else { Ok(m) },
                Err(f) => Err::<int, Fail>(f),
            });
        }
        let left = self.parse_functional()?;
        proof { self.lemma_wf(); }
        let ghost m = self.at();
        let ghost old_left = left;
        proof {
            if left is Binary {
                lemma_parse_rank(left, t, p, -1);
            }
        }
        if self.match_token(TokenKind::Power) {
            let right = self.parse_functional()?;
            let end_span = self.previous_span();
            let e = Expression::Binary(Box::new(BinaryExpr {
                left,
                operator: BinaryOp::Power,
                right,
                span: start_span.merge(&end_span),
            }));
            proof {
                let b = e->Binary_0;
                assert(b.left == old_left);
            }
            Ok(e)
        } else {
            Ok(left)
        }
    }

    /// Parses a function call `name(atom atom ...)`, whose arguments are separated by
    /// spaces, or an atom.
    fn parse_functional(&mut self) -> (r: Result<Expression, ParseError>)
        requires
            old(self).wf(),
        ensures
            old(self).expr_step(final(self), r),
            (old(self).cur().kind == TokenKind::Name && old(self).tok(old(self).at() + 1).kind
                == TokenKind::OpenParen && r is Ok) ==> (r->Ok_0 matches Expression::FunctionCall(c)
                && ident_of(c.name, old(self).cur())),
            r matches Ok(e) ==> expr_is(e, old(self).toks(), old(self).at(), final(self).at(), -1),
            old(self).ends(final(self), r, expr_end(old(self).toks(), old(self).at(), -1)),
        decreases old(self).toks().len() - old(self).at(), 1int,
    {
        let ghost t = self.toks();
        let ghost p = self.at();
        proof { self.lemma_wf(); }
        let start_span = self.current_span();
        if self.check(TokenKind::Name) && self.peek_is(TokenKind::OpenParen) {
            proof {
                assert(p + 2 < t.len());
            }
            let name = self.parse_identifier()?;
            self.expect(TokenKind::OpenParen)?;
            let mut args: Vec<Expression> = Vec::new();
            if !self.check(TokenKind::CloseParen) {
                let ghost m = self.at();
                proof { self.lemma_wf(); }
                let a = self.parse_atom()?;
                args.push(a);
                let ghost m1 = self.at();
                proof {
                    self.lemma_wf();
                    assert(expr_end(t, p + 2, -2) == Ok::<int, Fail>(m1));
                    assert(expr_end(t, p, -1) == match call_args_end(t, m1) {
                            Ok(m2) => if 0 <= m2 < t.len() && t[m2].kind == TokenKind::CloseParen {
                                Ok(m2 + 1)
                            } else {
                                Err(Fail::Expect { kind: TokenKind::CloseParen, at: m2 })
                            },
                            Err(f) => Err::<int, Fail>(f),
                        });
                }
                proof {
                    assert(m == p + 2);
                    assert(args@.drop_last() =~= Seq::<Expression>::empty());
                    assert(args_are(args@.drop_last(), t, p + 2, m));
                    assert(atom_is(args@.last(), t, m, self.at()));
                    assert(args@.len() > 0);
                }
                while !self.check(TokenKind::CloseParen) && !self.is_at_end()
                    invariant
                        self.wf(),
                        self.toks() == t,
                        t == old(self).toks(),
                        p == old(self).at(),
                        p < self.at(),
                        t[p].kind == TokenKind::Name,
                        t[p + 1].kind == TokenKind::OpenParen,
                        p + 2 <= self.at(),
                        args_are(args@, t, p + 2, self.at()),
                        p + 2 < m1 <= self.at(),
                        call_args_end(t, self.at()) == call_args_end(t, m1),
                        expr_end(t, p, -1) == match call_args_end(t, m1) {
                            Ok(m2) => if 0 <= m2 < t.len() && t[m2].kind == TokenKind::CloseParen {
                                Ok(m2 + 1)
                            } else {
                                Err(Fail::Expect { kind: TokenKind::CloseParen, at: m2 })
                            },
                            Err(f) => Err::<int, Fail>(f),
                        },
                    decreases t.len() - self.at(),
                {
                    let ghost before = args@;
                    let ghost m = self.at();
                    proof {
                        self.lemma_wf();
                        assert(call_args_end(t, m) == match expr_end(t, m, -2) {
                            Ok(q) => if m < q <= t.len() { call_args_end(t, q) } else { Ok(q) },
                            Err(f) => Err::<int, Fail>(f),
                        });
                    }
                    let a = self.parse_atom()?;
                    proof { self.lemma_wf(); }
                    args.push(a);
                    proof {
                        assert(args@.drop_last() =~= before);
                        assert(args_are(args@.drop_last(), t, p + 2, m));
                        assert(atom_is(args@.last(), t, m, self.at()));
                        assert(args@.len() > 0);
                    }
                }
            }
            proof {
                if args@.len() == 0 {
                    assert(args@ =~= Seq::<Expression>::empty());
                }
                assert(args_are(args@, t, p + 2, self.at()));
            }
            let ghost m = self.at();
            proof {
                self.lemma_wf();
                if m != p + 2 {
                    assert(call_args_end(t, m) == Ok::<int, Fail>(m));
                }
            }
            self.expect(TokenKind::CloseParen)?;
            let end_span = self.previous_span();
            let e = Expression::FunctionCall(FunctionCall {
                name,
                args,
                span: start_span.merge(&end_span),
            });
            proof {
                let c = e->FunctionCall_0;
                assert(args_parse(c.args@, t, p + 2) == Some(m));
                assert(t[m].kind == TokenKind::CloseParen);
                assert(c.span == span_between(t, p, m + 1));
                assert(expr_is(e, t, p, m + 1, -1));
            }
            return Ok(e);
        }
        proof {
            assert(!(t[p].kind == TokenKind::Name && t[p + 1].kind == TokenKind::OpenParen));
        }
        let r = self.parse_atom();
        proof {
            if r is Ok {
                let e = r->Ok_0;
                assert(expr_parse(e, t, p, -2) == atom_parse(e, t, p));
                assert(expr_parse(e, t, p, -1) == expr_parse(e, t, p, -2));
            }
        }
        r
    }

    /// Parses an atom: a group `(expression)`, a physical literal, a signed atom, a
    /// field reference, a string or a boolean.
    fn parse_atom(&mut self) -> (r: Result<Expression, ParseError>)
        requires
            old(self).wf(),
        ensures
            old(self).expr_step(final(self), r),
            old(self).cur().kind == TokenKind::String ==> (r matches Ok(Expression::Literal(Literal::String(s)))
                && string_of(s, old(self).cur())),
            old(self).cur().kind == TokenKind::True ==> r == Ok::<Expression, ParseError>(Expression::Literal(
                Literal::Bool(BoolLiteral { value: true, span: old(self).cur().span }))),
            old(self).cur().kind == TokenKind::False ==> r == Ok::<Expression, ParseError>(Expression::Literal(
                Literal::Bool(BoolLiteral { value: false, span: old(self).cur().span }))),
            old(self).cur().kind == TokenKind::Number ==> match physical_end(old(self).toks(), old(self).at()) {
                Ok(q) => r matches Ok(Expression::Literal(Literal::Physical(pl)))
                    && physical_of(pl, old(self).toks(), old(self).at(), q) && final(self).at() == q,
                Err(f) => r matches Err(e) && fail_is(e, f, old(self).toks()) && final(self).at() == f.pos(),
            },
            old(self).cur().kind == TokenKind::Name ==> match fref_end(old(self).toks(), old(self).at()) {
                Ok(q) => r matches Ok(Expression::FieldRef(fr))
                    && fref_of(fr, old(self).toks(), old(self).at(), q) && final(self).at() == q,
                Err(f) => r matches Err(e) && fail_is(e, f, old(self).toks()) && final(self).at() == f.pos(),
            },
            (old(self).cur().kind == TokenKind::OpenParen && r is Ok) ==> r->Ok_0 is Group,
            (old(self).cur().kind == TokenKind::Plus && r is Ok) ==> (r->Ok_0 matches Expression::Unary(u)
                && u.operator == UnaryOp::Pos),
            (old(self).cur().kind == TokenKind::Minus && r is Ok) ==> (r->Ok_0 matches Expression::Unary(u)
                && u.operator == UnaryOp::Neg),
            r matches Ok(e) ==> atom_is(e, old(self).toks(), old(self).at(), final(self).at()),
            old(self).ends(final(self), r, expr_end(old(self).toks(), old(self).at(), -2)),
        decreases old(self).toks().len() - old(self).at(), 0int,
    {
        proof { self.lemma_wf(); }
        let start_span = self.current_span();
        match self.current_kind() {
            TokenKind::OpenParen => {
                self.advance();
                let inner = self.parse_arithmetic_expression()?;
                self.expect(TokenKind::CloseParen)?;
                Ok(Expression::Group(Box::new(inner)))
            },
            TokenKind::Number => {
                let physical = self.parse_physical_literal()?;
                Ok(Expression::Literal(Literal::Physical(physical)))
            },
            TokenKind::Plus | TokenKind::Minus => {
                let op = if self.match_token(TokenKind::Plus) {
                    UnaryOp::Pos
                } else {
                    self.advance();
                    UnaryOp::Neg
                };
                if self.check(TokenKind::Number) {
                    let physical = self.parse_physical_literal()?;
                    let end_span = self.previous_span();
                    Ok(Expression::Unary(Box::new(UnaryExpr {
                        operator: op,
                        operand: Expression::Literal(Literal::Physical(physical)),
                        span: start_span.merge(&end_span),
                    })))
                } else {
                    let operand = self.parse_atom()?;
                    let end_span = self.previous_span();
                    Ok(Expression::Unary(Box::new(UnaryExpr {
                        operator: op,
                        operand,
                        span: start_span.merge(&end_span),
                    })))
                }
            },
            TokenKind::Name => {
                proof {
                    if let Ok(q0) = part_end(self.toks(), self.at()) {
                        lemma_fref_rest_ge(self.toks(), q0);
                    }
                }
                let field_ref = self.parse_field_reference()?;
                Ok(Expression::FieldRef(field_ref))
            },
            TokenKind::String => {
                let s = self.parse_string_literal()?;
                Ok(Expression::Literal(Literal::String(s)))
            },
            TokenKind::True | TokenKind::False => {
                let b = self.parse_bool_literal()?;
                Ok(Expression::Literal(Literal::Bool(b)))
            },
            _ => Err(ParseError::expected("expression", self.current_span())),
        }
    }
    /// Parses a comparison: an expression followed by one or more pairs of a comparison
    /// operator (`<`, `>`, `<=`, `>=`, `within`, `is`) and an expression.
    pub fn parse_comparison(&mut self) -> (r: Result<Comparison, ParseError>)
        requires
            old(self).wf(),
        ensures
            old(self).kept(final(self)),
            r is Ok ==> old(self).at() < final(self).at(),
            r matches Ok(c) ==> comparison_parse(c, old(self).toks(), old(self).at()) == Some(final(self).at()),
            !starts_expression(old(self).cur().kind) ==> (r matches Err(e)
                && is_expected(e, "expression"@, old(self).cur().span) && final(self).at() == old(self).at()),
            old(self).ends(final(self), r, comparison_end(old(self).toks(), old(self).at())),
    {
        let ghost t = self.toks();
        let ghost p = self.at();
        proof { self.lemma_wf(); }
        let start_span = self.current_span();
        let left = self.parse_arithmetic_expression()?;
        let ghost m = self.at();
        let mut operations: Vec<CompareOp> = Vec::new();
        loop
            invariant
                self.wf(),
                self.toks() == t,
                t == old(self).toks(),
                p == old(self).at(),
                p < m <= self.at(),
                start_span == t[p].span,
                starts_expression(t[p].kind),
                expr_parse(left, t, p, 4) == Some(m),
                compare_ops_parse(operations@, t, m) == Some(self.at()),
                expr_end(t, p, 4) == Ok::<int, Fail>(m),
                compare_rest_end(t, self.at()) == compare_rest_end(t, m),
                operations@.len() == 0 <==> self.at() == m,
            ensures
                self.wf(),
                self.toks() == t,
                p < m <= self.at(),
                expr_parse(left, t, p, 4) == Some(m),
                compare_ops_parse(operations@, t, m) == Some(self.at()),
                compare_kind(t[self.at()].kind) is None,
                expr_end(t, p, 4) == Ok::<int, Fail>(m),
                compare_rest_end(t, self.at()) == compare_rest_end(t, m),
                operations@.len() == 0 <==> self.at() == m,
            decreases t.len() - self.at(),
        {
            proof { self.lemma_wf(); }
            let ghost q = self.at();
            let ghost ops0 = operations@;
            let op_span = self.current_span();
            let kind = match self.current_kind() {
                TokenKind::LessThan => CompareOpKind::LessThan,
                TokenKind::GreaterThan => CompareOpKind::GreaterThan,
                TokenKind::LessEq => CompareOpKind::LessEq,
                TokenKind::GreaterEq => CompareOpKind::GreaterEq,
                TokenKind::Within => CompareOpKind::Within,
                TokenKind::Is => CompareOpKind::Is,
                _ => {
                    break;
                },
            };
            proof {
                assert(compare_rest_end(t, q) == match expr_end(t, q + 1, 4) {
                    Ok(q2) => if q < q2 <= t.len() { compare_rest_end(t, q2) } else { Ok(q2) },
                    Err(f) => Err::<int, Fail>(f),
                });
            }
            self.advance();
            let right = self.parse_arithmetic_expression()?;
            proof { self.lemma_wf(); }
            let end_span = self.previous_span();
            operations.push(CompareOp { kind, right, span: op_span.merge(&end_span) });
            proof {
                assert(operations@.drop_last() == ops0);
                assert(compare_kind(t[q].kind) == Some(kind));
            }
        }
        proof {
            self.lemma_wf();
            assert(compare_rest_end(t, self.at()) == Ok::<int, Fail>(self.at()));
        }
        if operations.len() == 0 {
            return Err(ParseError::expected("comparison operator", self.current_span()));
        }
        let end_span = self.previous_span();
        Ok(Comparison { left, operations, span: start_span.merge(&end_span) })
    }

    /// Parses the value of an assignment: a string, a `new` expression, a boolean, a
    /// physical literal (which a number or a sign starts), or an arithmetic expression
    /// (which a name or a parenthesis starts).
    pub fn parse_assignable(&mut self) -> (r: Result<Assignable, ParseError>)
        requires
            old(self).wf(),
        ensures
            old(self).kept(final(self)),
            r is Ok ==> old(self).at() < final(self).at(),
            old(self).cur().kind == TokenKind::String ==> (r matches Ok(Assignable::String(s))
                && string_of(s, old(self).cur()) && final(self).at() == old(self).at() + 1),
            old(self).cur().kind == TokenKind::True ==> r == Ok::<Assignable, ParseError>(
                Assignable::Boolean(BoolLiteral { value: true, span: old(self).cur().span })),
            old(self).cur().kind == TokenKind::False ==> r == Ok::<Assignable, ParseError>(
                Assignable::Boolean(BoolLiteral { value: false, span: old(self).cur().span })),
            old(self).cur().kind == TokenKind::New ==> match new_end(old(self).toks(), old(self).at()) {
                Ok(q) => r matches Ok(Assignable::New(ne)) && new_of(ne, old(self).toks(), old(self).at(), q)
                    && final(self).at() == q,
                Err(f) => r matches Err(e) && fail_is(e, f, old(self).toks()) && final(self).at() == f.pos(),
            },
            (old(self).cur().kind == TokenKind::Number || old(self).cur().kind == TokenKind::Plus
                || old(self).cur().kind == TokenKind::Minus) ==> match physical_end(old(self).toks(), old(self).at()) {
                Ok(q) => r matches Ok(Assignable::Physical(pl))
                    && physical_of(pl, old(self).toks(), old(self).at(), q) && final(self).at() == q,
                Err(f) => r matches Err(e) && fail_is(e, f, old(self).toks()) && final(self).at() == f.pos(),
            },
            ((old(self).cur().kind == TokenKind::Name || old(self).cur().kind == TokenKind::OpenParen)
                && r is Ok) ==> (r->Ok_0 matches Assignable::Arithmetic(e)
                && expr_is(e, old(self).toks(), old(self).at(), final(self).at(), 4)),
            r matches Ok(v) ==> assignable_parse(v, old(self).toks(), old(self).at()) == Some(final(self).at()),
            !(matches!(old(self).cur().kind, TokenKind::String | TokenKind::New | TokenKind::True
                | TokenKind::False | TokenKind::Number | TokenKind::Plus | TokenKind::Minus
                | TokenKind::Name | TokenKind::OpenParen)) ==> (r matches Err(e)
                && is_expected(e, "assignable value"@, old(self).cur().span) && final(self).at() == old(self).at()),
            old(self).ends(final(self), r, assignable_end(old(self).toks(), old(self).at())),
    {
        proof { self.lemma_wf(); }
        match self.current_kind() {
            TokenKind::String => {
                let s = self.parse_string_literal()?;
                Ok(Assignable::String(s))
            },
            TokenKind::New => {
                proof {
                    if let Ok(q) = type_ref_end(self.toks(), self.at() + 1) {
                        lemma_dotted_end_ge(self.toks(), self.at() + 2);
                    }
                }
                let new_expr = self.parse_new_expression()?;
                Ok(Assignable::New(new_expr))
            },
            TokenKind::True | TokenKind::False => {
                let b = self.parse_bool_literal()?;
                Ok(Assignable::Boolean(b))
            },
            TokenKind::Number | TokenKind::Plus | TokenKind::Minus => {
                let physical = self.parse_physical_literal()?;
                Ok(Assignable::Physical(physical))
            },
            TokenKind::Name | TokenKind::OpenParen => {
                let expr = self.parse_arithmetic_expression()?;
                Ok(Assignable::Arithmetic(expr))
            },
            _ => Err(ParseError::expected("assignable value", self.current_span())),
        }
    }
    /// What every statement parse keeps: the parser moves on, past at least one token
    /// on success, and the statement is of a form that its first token allows.
    pub open spec fn stmt_step(&self, after: &Parser<'a>, r: Result<Statement, ParseError>) -> bool {
        &&& self.kept(after)
        &&& r is Ok ==> self.at() < after.at()
        &&& r matches Ok(s) ==> stmt_fits(s, self.cur().kind)
    }

    /// What every parse of a list of statements keeps: the parser moves on, past at
    /// least one token on success.
    pub open spec fn stmts_step(&self, after: &Parser<'a>, r: Result<Vec<Statement>, ParseError>) -> bool {
        &&& self.kept(after)
        &&& r is Ok ==> self.at() < after.at()
    }

    /// Parses a statement: a pragma, a block definition, a `for` loop, or a simple statement.
    pub fn parse_statement(&mut self) -> (r: Result<Statement, ParseError>)
        requires
            old(self).wf(),
        ensures
            old(self).stmt_step(final(self), r),
            stmt_res(old(self).toks(), old(self).at(), final(self).at(), r),
            old(self).ends(final(self), r, stmt_end(old(self).toks(), old(self).at())),
    {
        match self.current_kind() {
            TokenKind::Pragma => self.parse_pragma(),
            TokenKind::Module | TokenKind::Component | TokenKind::Interface => self.parse_block_def(),
            TokenKind::For => self.parse_for_statement(),
            _ => self.parse_simple_statement(),
        }
    }

    /// Parses a pragma, and the newline after it if there is one.
    fn parse_pragma(&mut self) -> (r: Result<Statement, ParseError>)
        requires
            old(self).wf(),
            old(self).cur().kind == TokenKind::Pragma,
        ensures
            old(self).stmt_step(final(self), r),
            r matches Ok(Statement::Pragma(ps)) && ps.content@ == old(self).cur().text
                && ps.span == old(self).cur().span,
            old(self).ends(final(self), r, pragma_end(old(self).toks(), old(self).at())),
    {
        proof { self.lemma_wf(); }
        let token = self.expect(TokenKind::Pragma)?;
        proof { self.lemma_wf(); }
        let stmt = PragmaStmt { content: token.text, span: token.span };
        self.match_token(TokenKind::Newline);
        Ok(Statement::Pragma(stmt))
    }

    /// Parses a block definition: `module`, `component` or `interface`, a name, an
    /// optional `from Base`, a colon and a block.
    fn parse_block_def(&mut self) -> (r: Result<Statement, ParseError>)
        requires
            old(self).wf(),
            starts_block(old(self).cur().kind),
        ensures
            old(self).stmt_step(final(self), r),
            r matches Ok(Statement::BlockDef(b)) ==> ident_of(b.name, old(self).tok(old(self).at() + 1))
                && b.kind == (if old(self).cur().kind == TokenKind::Module {
                    BlockKind::Module
                } else if old(self).cur().kind == TokenKind::Component {
                    BlockKind::Component
                } else {
                    BlockKind::Interface
                })
                && (b.super_type is Some <==> old(self).tok(old(self).at() + 2).kind == TokenKind::From)
                && (b.super_type matches Some(st) ==> (type_ref_end(old(self).toks(), old(self).at() + 3) matches Ok(q)
                    && type_ref_of(st, old(self).toks(), old(self).at() + 3, q)
                    && old(self).tok(q).kind == TokenKind::Colon))
                && b.span == span_between(old(self).toks(), old(self).at(), final(self).at()),
            old(self).ends(final(self), r, block_def_end(old(self).toks(), old(self).at())),
            r matches Ok(s) ==> stmt_ok(old(self).toks(), old(self).at(), final(self).at(), s),
        decreases old(self).toks().len() - old(self).at(), 4int,
    {
        proof { self.lemma_wf(); }
        let start_span = self.current_span();
        let kind = match self.current_kind() {
            TokenKind::Module => BlockKind::Module,
            TokenKind::Component => BlockKind::Component,
            _ => BlockKind::Interface,
        };
        self.advance();
        let ghost p = self.at() - 1;
        let ghost t = self.toks();
        proof { self.lemma_wf(); }
        let name = self.parse_identifier()?;
        proof { self.lemma_wf(); }
        let super_type = if self.match_token(TokenKind::From) {
            Some(self.parse_type_reference()?)
        } else {
            None
        };
        proof { self.lemma_wf(); }
        let ghost q = self.at();
        self.expect(TokenKind::Colon)?;
        proof {
            self.lemma_wf();
            assert(p < q < t.len());
            assert(block_def_end(t, p) == block_end(t, q + 1));
        }
        let body = self.parse_block()?;
        let end_span = self.previous_span();
        Ok(Statement::BlockDef(BlockDef { kind, name, super_type, body, span: start_span.merge(&end_span) }))
    }

    /// Parses a block: simple statements on the same line, or a newline and an indented
    /// run of statement lines up to the dedent.
    #[verifier::spinoff_prover]
    #[verifier::rlimit(100)]
    fn parse_block(&mut self) -> (r: Result<Vec<Statement>, ParseError>)
        requires
            old(self).wf(),
        ensures
            old(self).stmts_step(final(self), r),
            old(self).ends(final(self), r, block_end(old(self).toks(), old(self).at())),
            r matches Ok(v) ==> block_body_ok(v@, old(self).toks(), old(self).at()),
        decreases old(self).toks().len() - old(self).at(), 3int,
    {
        let ghost t = self.toks();
        let ghost p = self.at();
        if !self.check(TokenKind::Newline) {
            return self.parse_simple_statements();
        }
        proof { self.lemma_wf(); }
        self.expect(TokenKind::Newline)?;
        proof { self.lemma_wf(); }
        self.expect(TokenKind::Indent)?;
        proof {
            self.lemma_wf();
            assert(p + 2 < t.len());
            assert(block_end(t, p) == match lines_end(t, p + 2) {
                Ok(m) => if t[m].kind == TokenKind::Dedent { Ok(m + 1) } else {
                    Err(Fail::Expect { kind: TokenKind::Dedent, at: m }) },
                Err(f) => Err::<int, Fail>(f),
            });
        }
        let mut statements: Vec<Statement> = Vec::new();
        proof {
            assert forall|w: Seq<Statement>| #[trigger] lines_ok(w, t, self.at())
                implies lines_ok(statements@ + w, t, p + 2) by {
                assert(statements@ + w =~= w);
            }
        }
        while !self.check(TokenKind::Dedent) && !self.is_at_end()
            invariant
                self.wf(),
                self.toks() == t,
                t == old(self).toks(),
                p == old(self).at(),
                p < self.at(),
                p + 2 <= self.at(),
                t[p].kind == TokenKind::Newline,
                lines_end(t, self.at()) == lines_end(t, p + 2),
                forall|w: Seq<Statement>| #[trigger] lines_ok(w, t, self.at())
                    ==> lines_ok(statements@ + w, t, p + 2),
                block_end(t, p) == match lines_end(t, p + 2) {
                    Ok(m) => if t[m].kind == TokenKind::Dedent { Ok(m + 1) } else {
                        Err(Fail::Expect { kind: TokenKind::Dedent, at: m }) },
                    Err(f) => Err::<int, Fail>(f),
                },
            decreases t.len() - self.at(),
        {
            proof { self.lemma_wf(); }
            let ghost m = self.at();
            if self.match_token(TokenKind::Newline) {
                proof {
                    assert(lines_end(t, m) == lines_end(t, m + 1));
                    lemma_lines_blank(t, m);
                }
                continue;
            }
            proof {
                assert(lines_end(t, m) == match line_end(t, m) {
                    Ok(q) => if m < q <= t.len() { lines_end(t, q) } else { Ok(q) },
                    Err(f) => Err::<int, Fail>(f),
                });
            }
            let ghost old_st = statements@;
            let mut stmts = self.parse_statement_line()?;
            proof { self.lemma_wf(); }
            let ghost sv = stmts@;
            let ghost q = self.at();
            statements.append(&mut stmts);
            proof {
                lemma_lines_prepend(t, m, q, sv);
                lemma_lines_compose(t, m, q, sv, old_st, p + 2);
                assert(statements@ == old_st + sv);
            }
        }
        proof {
            self.lemma_wf();
            assert(lines_end(t, self.at()) == Ok::<int, Fail>(self.at()));
        }
        let ghost q = self.at();
        self.expect(TokenKind::Dedent)?;
        proof {
            lemma_lines_stop(t, q);
            assert(statements@ + Seq::<Statement>::empty() =~= statements@);
            assert(lines_ok(statements@, t, p + 2));
        }
        Ok(statements)
    }

    /// Parses one line of a block: a pragma, a block definition, a `for` loop, or simple
    /// statements separated by semicolons.
    #[verifier::spinoff_prover]
    #[verifier::rlimit(60)]
    fn parse_statement_line(&mut self) -> (r: Result<Vec<Statement>, ParseError>)
        requires
            old(self).wf(),
        ensures
            old(self).stmts_step(final(self), r),
            old(self).ends(final(self), r, line_end(old(self).toks(), old(self).at())),
            r matches Ok(v) ==> line_ok(v@, old(self).toks(), old(self).at(), final(self).at())
                && v@.len() == line_count(old(self).toks(), old(self).at()),
        decreases old(self).toks().len() - old(self).at(), 5int,
    {
        proof { reveal(line_ok); }
        match self.current_kind() {
            TokenKind::Pragma => {
                let stmt = self.parse_pragma()?;
                let mut v: Vec<Statement> = Vec::new();
                v.push(stmt);
                Ok(v)
            },
            TokenKind::Module | TokenKind::Component | TokenKind::Interface => {
                let stmt = self.parse_block_def()?;
                let mut v: Vec<Statement> = Vec::new();
                v.push(stmt);
                Ok(v)
            },
            TokenKind::For => {
                let stmt = self.parse_for_statement()?;
                let mut v: Vec<Statement> = Vec::new();
                v.push(stmt);
                Ok(v)
            },
            _ => {
                let ghost t = self.toks();
                let ghost p = self.at();
                let r = self.parse_simple_statements();
                proof {
                    if r is Ok {
                        let v = r->Ok_0@;
                        if let Ok(q) = simple_stmt_end(t, p) {
                            lemma_semis_tail_len(v.drop_first(), t, q);
                        }
                    }
                }
                r
            },
        }
    }

    /// Parses simple statements separated by semicolons (a trailing one allowed), and
    /// the newline that ends them if there is one.
    #[verifier::spinoff_prover]
    #[verifier::rlimit(60)]
    fn parse_simple_statements(&mut self) -> (r: Result<Vec<Statement>, ParseError>)
        requires
            old(self).wf(),
        ensures
            old(self).stmts_step(final(self), r),
            r matches Ok(v) ==> v@.len() >= 1,
            old(self).ends(final(self), r, simple_stmts_end(old(self).toks(), old(self).at())),
            r matches Ok(v) ==> semis_walk(v@, old(self).toks(), old(self).at()),
    {
        let ghost t = self.toks();
        let ghost p = self.at();
        proof { self.lemma_wf(); }
        let first = self.parse_simple_statement()?;
        let ghost q0 = self.at();
        let mut statements: Vec<Statement> = Vec::new();
        statements.push(first);
        proof {
            assert forall|w: Seq<Statement>| #[trigger] semis_tail(w, t, self.at())
                implies semis_tail(statements@.drop_first() + w, t, q0) by {
                assert(statements@.drop_first() + w =~= w);
            }
            assert(statements@.drop_first() =~= Seq::<Statement>::empty());
            if t[q0].kind != TokenKind::Semicolon {
                assert(semis_tail(Seq::<Statement>::empty(), t, q0));
            }
        }
        while self.check(TokenKind::Semicolon)
            invariant_except_break
                forall|w: Seq<Statement>| #[trigger] semis_tail(w, t, self.at())
                    ==> semis_tail(statements@.drop_first() + w, t, q0),
                t[self.at()].kind != TokenKind::Semicolon ==> semis_tail(statements@.drop_first(), t, q0),
            invariant
                self.wf(),
                self.toks() == t,
                t == old(self).toks(),
                p == old(self).at(),
                p < self.at(),
                statements@.len() >= 1,
                simple_stmt_end(t, p) == Ok::<int, Fail>(q0),
                semi_rest(t, self.at()) == semi_rest(t, q0),
                q0 <= self.at(),
                simple_ok(t, p, q0, statements@[0]),
            ensures
                self.wf(),
                self.toks() == t,
                p < self.at(),
                statements@.len() >= 1,
                simple_stmt_end(t, p) == Ok::<int, Fail>(q0),
                semi_rest(t, q0) == Ok::<int, Fail>(self.at()),
                simple_ok(t, p, q0, statements@[0]),
                semis_tail(statements@.drop_first(), t, q0),
            decreases t.len() - self.at(),
        {
            proof { self.lemma_wf(); }
            let ghost m = self.at();
            self.advance();
            proof { self.lemma_wf(); }
            if self.check(TokenKind::Newline) || self.is_at_end() {
                proof {
                    assert(semi_rest(t, m) == Ok::<int, Fail>(m + 1));
                    assert(semi_rest(t, m + 1) == Ok::<int, Fail>(m + 1));
                    assert(semi_rest(t, q0) == Ok::<int, Fail>(self.at()));
                    assert(semis_tail(Seq::<Statement>::empty(), t, m));
                    assert(statements@.drop_first() + Seq::<Statement>::empty() =~= statements@.drop_first());
                }
                break;
            }
            proof {
                assert(semi_rest(t, m) == match simple_stmt_end(t, m + 1) {
                    Ok(q) => if m < q <= t.len() { semi_rest(t, q) } else { Ok(q) },
                    Err(f) => Err::<int, Fail>(f),
                });
            }
            let ghost old_st = statements@;
            let s = self.parse_simple_statement()?;
            proof { self.lemma_wf(); }
            let ghost q2 = self.at();
            let ghost sv = s;
            statements.push(s);
            proof {
                assert(statements@[0] == old_st[0]);
                assert forall|w: Seq<Statement>| #[trigger] semis_tail(w, t, q2)
                    implies semis_tail(statements@.drop_first() + w, t, q0) by {
                    let w2 = seq![sv] + w;
                    assert(w2[0] == sv);
                    assert(w2.drop_first() =~= w);
                    assert(semis_tail(w2, t, m));
                    assert(semis_tail(old_st.drop_first() + w2, t, q0));
                    assert(old_st.drop_first() + w2 =~= statements@.drop_first() + w);
                }
                if t[q2].kind != TokenKind::Semicolon {
                    assert(semis_tail(Seq::<Statement>::empty(), t, q2));
                    assert(statements@.drop_first() + Seq::<Statement>::empty() =~= statements@.drop_first());
                }
            }
        }
        proof { self.lemma_wf(); }
        self.match_token(TokenKind::Newline);
        Ok(statements)
    }

    /// Parses a simple statement: an import, a pin, a signal, an assertion, `pass`, a
    /// trait, a docstring, or a statement that starts with a name.
    fn parse_simple_statement(&mut self) -> (r: Result<Statement, ParseError>)
        requires
            old(self).wf(),
        ensures
            old(self).stmt_step(final(self), r),
            !starts_simple(old(self).cur().kind) ==> (r matches Err(e)
                && is_expected(e, "statement"@, old(self).cur().span) && final(self).at() == old(self).at()),
            old(self).cur().kind == TokenKind::Pass ==> r == Ok::<Statement, ParseError>(
                Statement::Pass(PassStmt { span: old(self).cur().span })) && final(self).at() == old(self).at() + 1,
            old(self).cur().kind == TokenKind::String ==> (r matches Ok(Statement::StringStmt(s))
                && string_of(s.value, old(self).cur()) && s.span == old(self).cur().span
                && final(self).at() == old(self).at() + 1),
            old(self).cur().kind == TokenKind::Name ==> old(self).name_stmt_ok(final(self), r),
            old(self).cur().kind == TokenKind::Assert ==> (r matches Ok(Statement::Assert(a)) ==> comparison_parse(
                a.comparison, old(self).toks(), old(self).at() + 1) == Some(final(self).at())),
            old(self).ends(final(self), r, simple_stmt_end(old(self).toks(), old(self).at())),
            r is Ok ==> stmt_res(old(self).toks(), old(self).at(), final(self).at(), r),
            r matches Ok(s) ==> simple_ok(old(self).toks(), old(self).at(), final(self).at(), s),
    {
        match self.current_kind() {
            TokenKind::Import => self.parse_import(),
            TokenKind::From => self.parse_from_import(),
            TokenKind::Pin => self.parse_pin_declaration(),
            TokenKind::Signal => self.parse_signal_def(),
            TokenKind::Assert => self.parse_assert(),
            TokenKind::Pass => self.parse_pass(),
            TokenKind::Trait => self.parse_trait(),
            TokenKind::String => self.parse_string_statement(),
            TokenKind::Name => self.parse_name_starting_statement(),
            _ => Err(ParseError::expected("statement", self.current_span())),
        }
    }

    /// Parses `import X, Y, ...`, or the older form `import X from "path"`.
    fn parse_import(&mut self) -> (r: Result<Statement, ParseError>)
        requires
            old(self).wf(),
            old(self).cur().kind == TokenKind::Import,
        ensures
            old(self).stmt_step(final(self), r),
            match type_ref_end(old(self).toks(), old(self).at() + 1) {
                Ok(q) => if old(self).tok(q).kind == TokenKind::From {
                    if old(self).tok(q + 1).kind == TokenKind::String {
                        r matches Ok(Statement::DepImport(d))
                            && type_ref_of(d.type_ref, old(self).toks(), old(self).at() + 1, q)
                            && string_of(d.from_path, old(self).tok(q + 1))
                            && d.span == span_between(old(self).toks(), old(self).at(), q + 2)
                            && final(self).at() == q + 2
                    } else {
                        r matches Err(e) && is_expect_error(e, TokenKind::String, old(self).tok(q + 1))
                            && final(self).at() == q + 1
                    }
                } else {
                    r is Ok ==> (r->Ok_0 matches Statement::Import(i) && i.from_path is None
                        && i.imports@.len() >= 1
                        && type_ref_of(i.imports@[0], old(self).toks(), old(self).at() + 1, q)
                        && type_refs_parse(i.imports@, old(self).toks(), old(self).at() + 1) == Some(final(self).at())
                        && final(self).cur().kind != TokenKind::Comma
                        && i.span == span_between(old(self).toks(), old(self).at(), final(self).at()))
                },
                Err(f) => r matches Err(e) && fail_is(e, f, old(self).toks()) && final(self).at() == f.pos(),
            },
            old(self).ends(final(self), r, import_end(old(self).toks(), old(self).at())),
            r matches Ok(st) ==> import_ok(old(self).toks(), old(self).at(), final(self).at(), st),
    {
        let ghost t = self.toks();
        let ghost p = self.at();
        proof {
            self.lemma_wf();
            lemma_dotted_end_ge(t, p + 2);
        }
        let start_span = self.current_span();
        self.expect(TokenKind::Import)?;
        let type_ref = self.parse_type_reference()?;
        if self.match_token(TokenKind::From) {
            let path = self.parse_string_literal()?;
            let end_span = self.previous_span();
            return Ok(Statement::DepImport(DepImportStmt {
                type_ref,
                from_path: path,
                span: start_span.merge(&end_span),
            }));
        }
        let ghost q0 = self.at();
        let mut imports: Vec<TypeRef> = Vec::new();
        imports.push(type_ref);
        let ghost first = imports@[0];
        while self.check(TokenKind::Comma)
            invariant
                self.wf(),
                self.toks() == t,
                t == old(self).toks(),
                p == old(self).at(),
                p < self.at(),
                type_ref_end(t, p + 1) is Ok,
                t[type_ref_end(t, p + 1)->Ok_0].kind != TokenKind::From,
                imports@.len() >= 1,
                imports@[0] == first,
                type_refs_parse(imports@, t, p + 1) == Some(self.at()),
                type_ref_end(t, p + 1) == Ok::<int, Fail>(q0),
                type_refs_rest(t, self.at()) == type_refs_rest(t, q0),
            decreases t.len() - self.at(),
        {
            let ghost refs0 = imports@;
            proof {
                self.lemma_wf();
                let m = self.at();
                assert(type_refs_rest(t, m) == match type_ref_end(t, m + 1) {
                    Ok(q) => if m < q <= t.len() { type_refs_rest(t, q) } else { Ok(q) },
                    Err(f) => Err::<int, Fail>(f),
                });
            }
            self.advance();
            let tr = self.parse_type_reference()?;
            imports.push(tr);
            proof {
                assert(imports@.drop_last() == refs0);
            }
        }
        let end_span = self.previous_span();
        proof {
            self.lemma_wf();
            assert(type_refs_rest(t, self.at()) == Ok::<int, Fail>(self.at()));
        }
        Ok(Statement::Import(ImportStmt { from_path: None, imports, span: start_span.merge(&end_span) }))
    }

    /// Parses `from "path" import X, Y, ...`.
    fn parse_from_import(&mut self) -> (r: Result<Statement, ParseError>)
        requires
            old(self).wf(),
            old(self).cur().kind == TokenKind::From,
        ensures
            old(self).stmt_step(final(self), r),
            old(self).tok(old(self).at() + 1).kind != TokenKind::String ==> (r matches Err(e)
                && is_expect_error(e, TokenKind::String, old(self).tok(old(self).at() + 1))
                && final(self).at() == old(self).at() + 1),
            old(self).tok(old(self).at() + 1).kind == TokenKind::String
                && old(self).tok(old(self).at() + 2).kind != TokenKind::Import ==> (r matches Err(e)
                && is_expect_error(e, TokenKind::Import, old(self).tok(old(self).at() + 2))
                && final(self).at() == old(self).at() + 2),
            r matches Ok(Statement::Import(i)) ==> i.from_path matches Some(s)
                && string_of(s, old(self).tok(old(self).at() + 1)) && i.imports@.len() >= 1
                && type_refs_parse(i.imports@, old(self).toks(), old(self).at() + 3) == Some(final(self).at())
                && final(self).cur().kind != TokenKind::Comma
                && i.span == span_between(old(self).toks(), old(self).at(), final(self).at()),
            old(self).ends(final(self), r, from_import_end(old(self).toks(), old(self).at())),
            r matches Ok(st) ==> from_import_ok(old(self).toks(), old(self).at(), final(self).at(), st),
    {
        let ghost t = self.toks();
        let ghost p = self.at();
        proof { self.lemma_wf(); }
        let start_span = self.current_span();
        self.expect(TokenKind::From)?;
        let path = self.parse_string_literal()?;
        self.expect(TokenKind::Import)?;
        let first = self.parse_type_reference()?;
        let ghost q0 = self.at();
        let mut imports: Vec<TypeRef> = Vec::new();
        imports.push(first);
        while self.check(TokenKind::Comma)
            invariant
                self.wf(),
                self.toks() == t,
                t == old(self).toks(),
                p == old(self).at(),
                p < self.at(),
                t[p + 1].kind == TokenKind::String,
                t[p + 2].kind == TokenKind::Import,
                imports@.len() >= 1,
                type_refs_parse(imports@, t, p + 3) == Some(self.at()),
                type_ref_end(t, p + 3) == Ok::<int, Fail>(q0),
                type_refs_rest(t, self.at()) == type_refs_rest(t, q0),
            decreases t.len() - self.at(),
        {
            let ghost refs0 = imports@;
            proof {
                self.lemma_wf();
                let m = self.at();
                assert(type_refs_rest(t, m) == match type_ref_end(t, m + 1) {
                    Ok(q) => if m < q <= t.len() { type_refs_rest(t, q) } else { Ok(q) },
                    Err(f) => Err::<int, Fail>(f),
                });
            }
            self.advance();
            let tr = self.parse_type_reference()?;
            imports.push(tr);
            proof {
                assert(imports@.drop_last() == refs0);
            }
        }
        let end_span = self.previous_span();
        proof {
            self.lemma_wf();
            assert(type_refs_rest(t, self.at()) == Ok::<int, Fail>(self.at()));
        }
        Ok(Statement::Import(ImportStmt { from_path: Some(path), imports, span: start_span.merge(&end_span) }))
    }

    /// Parses the name of a pin: a name, a number or a string.
    fn parse_pin_name(&mut self) -> (r: Result<PinName, ParseError>)
        requires
            old(self).wf(),
        ensures
            old(self).kept(final(self)),
            is_pin_name_kind(old(self).cur().kind) ==> (r matches Ok(n) && pin_name_of(n, old(self).cur())
                && final(self).at() == old(self).at() + 1),
            !is_pin_name_kind(old(self).cur().kind) ==> (r matches Err(e)
                && is_expected(e, "pin name"@, old(self).cur().span) && final(self).at() == old(self).at()),
    {
        match self.current_kind() {
            TokenKind::Name => Ok(PinName::Identifier(self.parse_identifier()?)),
            TokenKind::Number => Ok(PinName::Number(self.parse_number_literal()?)),
            TokenKind::String => Ok(PinName::String(self.parse_string_literal()?)),
            _ => Err(ParseError::expected("pin name", self.current_span())),
        }
    }

    /// Parses `pin name`.
    fn parse_pin_declaration(&mut self) -> (r: Result<Statement, ParseError>)
        requires
            old(self).wf(),
            old(self).cur().kind == TokenKind::Pin,
        ensures
            old(self).stmt_step(final(self), r),
            is_pin_name_kind(old(self).tok(old(self).at() + 1).kind) ==> (r matches Ok(Statement::PinDeclaration(d))
                && pin_name_of(d.name, old(self).tok(old(self).at() + 1))
                && d.span == span_between(old(self).toks(), old(self).at(), old(self).at() + 2)
                && final(self).at() == old(self).at() + 2),
            !is_pin_name_kind(old(self).tok(old(self).at() + 1).kind) ==> (r matches Err(e)
                && is_expected(e, "pin name"@, old(self).tok(old(self).at() + 1).span)
                && final(self).at() == old(self).at() + 1),
            old(self).ends(final(self), r, simple_stmt_end(old(self).toks(), old(self).at())),
    {
        proof { self.lemma_wf(); }
        let start_span = self.current_span();
        self.expect(TokenKind::Pin)?;
        let name = self.parse_pin_name()?;
        let end_span = self.previous_span();
        Ok(Statement::PinDeclaration(PinDeclaration { name, span: start_span.merge(&end_span) }))
    }

    /// Parses the rest of a directed connection chain after its first element: `~> b ~> c`
    /// or `<~ b <~ c`, all arrows pointing the same way.
    fn parse_chain(&mut self, first: Connectable, start_span: Span) -> (r: Result<Statement, ParseError>)
        requires
            old(self).wf(),
            old(self).cur().kind == TokenKind::Sperm || old(self).cur().kind == TokenKind::LSperm,
        ensures
            old(self).kept(final(self)),
            r is Ok ==> old(self).at() < final(self).at(),
            r matches Ok(s) ==> s matches Statement::DirectedConnection(d)
                && d.direction == (if old(self).cur().kind == TokenKind::Sperm {
                    ConnectionDirection::Forward
                } else {
                    ConnectionDirection::Backward
                })
                && d.elements@.len() >= 2 && d.elements@[0] == first
                && d.span == spec_merge(start_span, prev_span(final(self).toks(), final(self).at()))
                && chain_parse(d.elements@.drop_first(), old(self).toks(), old(self).at(), old(self).cur().kind)
                    == Some(final(self).at())
                && final(self).cur().kind != TokenKind::Sperm && final(self).cur().kind != TokenKind::LSperm,
            match chain_end(old(self).toks(), old(self).at(), old(self).cur().kind) {
                Ok(q) => r is Ok && final(self).at() == q,
                Err(f) => r matches Err(e) && fail_is(e, f, old(self).toks()) && final(self).at() == f.pos(),
            },
    {
        let ghost t = self.toks();
        let ghost p = self.at();
        proof { self.lemma_wf(); }
        let direction = if self.check(TokenKind::Sperm) {
            ConnectionDirection::Forward
        } else {
            ConnectionDirection::Backward
        };
        let mut elements: Vec<Connectable> = Vec::new();
        elements.push(first);
        while self.check(TokenKind::Sperm) || self.check(TokenKind::LSperm)
            invariant
                self.wf(),
                self.toks() == t,
                t == old(self).toks(),
                p == old(self).at(),
                p <= self.at(),
                elements@.len() >= 1,
                elements@[0] == first,
                self.at() == p || elements@.len() >= 2,
                direction == (if t[p].kind == TokenKind::Sperm {
                    ConnectionDirection::Forward
                } else {
                    ConnectionDirection::Backward
                }),
                t[p].kind == TokenKind::Sperm || t[p].kind == TokenKind::LSperm,
                chain_parse(elements@.drop_first(), t, p, t[p].kind) == Some(self.at()),
                chain_end(t, self.at(), t[p].kind) == chain_end(t, p, t[p].kind),
            decreases t.len() - self.at(),
        {
            proof { self.lemma_wf(); }
            let ghost q = self.at();
            let ghost els0 = elements@;
            let current_dir = if self.check(TokenKind::Sperm) {
                ConnectionDirection::Forward
            } else {
                ConnectionDirection::Backward
            };
            if current_dir != direction {
                return Err(ParseError::mixed_connection_operators(self.current_span()));
            }
            proof {
                assert(t[q].kind == t[p].kind);
                assert(chain_end(t, q, t[p].kind) == match connectable_end(t, q + 1) {
                    Ok(q2) => if q < q2 <= t.len() { chain_end(t, q2, t[p].kind) } else { Ok(q2) },
                    Err(f) => Err::<int, Fail>(f),
                });
            }
            self.advance();
            let c = self.parse_connectable()?;
            elements.push(c);
            proof {
                assert(elements@.drop_first().drop_last() == els0.drop_first());
                self.lemma_wf();
            }
        }
        let end_span = self.previous_span();
        proof {
            assert(elements@.drop_first() =~= elements@.subrange(1, elements@.len() as int));
            assert(chain_end(t, self.at(), t[p].kind) == Ok::<int, Fail>(self.at()));
        }
        Ok(Statement::DirectedConnection(DirectedConnection { direction, elements, span: start_span.merge(&end_span) }))
    }

    /// Parses `signal name`, or a connection that starts with one.
    fn parse_signal_def(&mut self) -> (r: Result<Statement, ParseError>)
        requires
            old(self).wf(),
            old(self).cur().kind == TokenKind::Signal,
        ensures
            old(self).stmt_step(final(self), r),
            !is_ident_kind(old(self).tok(old(self).at() + 1).kind) ==> (r matches Err(e)
                && is_expected(e, "identifier"@, old(self).tok(old(self).at() + 1).span)
                && final(self).at() == old(self).at() + 1),
            (is_ident_kind(old(self).tok(old(self).at() + 1).kind) && !is_connect_op(old(self).tok(old(self).at() + 2).kind)) ==> (r matches Ok(Statement::SignalDef(sd))
                && ident_of(sd.name, old(self).tok(old(self).at() + 1))
                && sd.span == span_between(old(self).toks(), old(self).at(), old(self).at() + 2)
                && final(self).at() == old(self).at() + 2),
            old(self).ends(final(self), r, signal_end(old(self).toks(), old(self).at())),
            r matches Ok(st) ==> signal_ok(old(self).toks(), old(self).at(), final(self).at(), st),
    {
        proof { self.lemma_wf(); }
        let start_span = self.current_span();
        self.expect(TokenKind::Signal)?;
        let name = self.parse_identifier()?;
        let signal_span = start_span.merge(&self.previous_span());
        let signal_def = SignalDef { name, span: signal_span };
        match self.current_kind() {
            TokenKind::Wire => {
                self.advance();
                let right = self.parse_connectable()?;
                let end_span = self.previous_span();
                Ok(Statement::Connection(Connection {
                    left: Connectable::SignalDef(signal_def),
                    right,
                    span: start_span.merge(&end_span),
                }))
            },
            TokenKind::Sperm | TokenKind::LSperm => self.parse_chain(Connectable::SignalDef(signal_def), start_span),
            _ => Ok(Statement::SignalDef(signal_def)),
        }
    }

    /// Parses `assert comparison`.
    fn parse_assert(&mut self) -> (r: Result<Statement, ParseError>)
        requires
            old(self).wf(),
            old(self).cur().kind == TokenKind::Assert,
        ensures
            old(self).stmt_step(final(self), r),
            r matches Ok(Statement::Assert(a)) ==> a.comparison.operations@.len() >= 1
                && comparison_parse(a.comparison, old(self).toks(), old(self).at() + 1) == Some(final(self).at())
                && a.span == span_between(old(self).toks(), old(self).at(), final(self).at()),
            old(self).ends(final(self), r, comparison_end(old(self).toks(), old(self).at() + 1)),
            r is Ok ==> r->Ok_0 is Assert,
    {
        proof { self.lemma_wf(); }
        let start_span = self.current_span();
        self.expect(TokenKind::Assert)?;
        let comparison = self.parse_comparison()?;
        let end_span = self.previous_span();
        Ok(Statement::Assert(AssertStmt { comparison, span: start_span.merge(&end_span) }))
    }

    /// Parses `pass`.
    fn parse_pass(&mut self) -> (r: Result<Statement, ParseError>)
        requires
            old(self).wf(),
            old(self).cur().kind == TokenKind::Pass,
        ensures
            old(self).stmt_step(final(self), r),
            r == Ok::<Statement, ParseError>(Statement::Pass(PassStmt { span: old(self).cur().span })),
            final(self).at() == old(self).at() + 1,
            old(self).ends(final(self), r, Ok::<int, Fail>(old(self).at() + 1)),
    {
        let span = self.current_span();
        self.expect(TokenKind::Pass)?;
        Ok(Statement::Pass(PassStmt { span }))
    }

    /// The names of the parts of a field reference, as a type reference's names.
    fn part_names(parts: &Vec<FieldRefPart>) -> (r: Vec<Identifier>)
        ensures
            r@.len() == parts@.len(),
            forall|i: int| 0 <= i < parts@.len() ==> r@[i].name@ == #[trigger] parts@[i].name.name@
                && r@[i].span == parts@[i].name.span,
    {
        let mut r: Vec<Identifier> = Vec::new();
        let mut i: usize = 0;
        while i < parts.len()
            invariant
                i <= parts@.len(),
                r@.len() == i,
                forall|j: int| 0 <= j < i ==> r@[j].name@ == #[trigger] parts@[j].name.name@
                    && r@[j].span == parts@[j].name.span,
            decreases parts@.len() - i,
        {
            let name = &parts[i].name;
            r.push(Identifier { name: name.name.clone(), span: name.span });
            i = i + 1;
        }
        r
    }

    /// Parses `trait [target] Type[::constructor][<template>]`: a name right after the
    /// first reference makes that reference the target.
    fn parse_trait(&mut self) -> (r: Result<Statement, ParseError>)
        requires
            old(self).wf(),
            old(self).cur().kind == TokenKind::Trait,
        ensures
            old(self).stmt_step(final(self), r),
            r matches Ok(Statement::Trait(tr)) ==> tr.span == span_between(
                old(self).toks(), old(self).at(), final(self).at())
                && (fref_end(old(self).toks(), old(self).at() + 1) matches Ok(q)
                && (old(self).tok(q).kind == TokenKind::Name ==> (tr.target matches Some(fr)
                    && fref_of(fr, old(self).toks(), old(self).at() + 1, q)
                    && (type_ref_end(old(self).toks(), q) matches Ok(q2)
                    && type_ref_of(tr.type_ref, old(self).toks(), q, q2))))
                && (old(self).tok(q).kind != TokenKind::Name ==> (tr.target is None
                    && tr.type_ref.span == span_between(old(self).toks(), old(self).at() + 1, q)))),
            match trait_end(old(self).toks(), old(self).at()) {
                Ok(q) => r matches Ok(Statement::Trait(tr)) && final(self).at() == q
                    && (trait_type_end(old(self).toks(), old(self).at()) matches Ok(q2)
                    && (tr.constructor is Some <==> old(self).tok(q2).kind == TokenKind::DoubleColon)
                    && (tr.constructor matches Some(c) ==> ident_of(c, old(self).tok(q2 + 1)))
                    && (trait_ctor_end(old(self).toks(), q2) matches Ok(q3)
                    && (tr.template is Some <==> old(self).tok(q3).kind == TokenKind::LessThan)
                    && (tr.template matches Some(tpl) ==> template_of(tpl, old(self).toks(), q3, q)))),
                Err(f) => r matches Err(e) && fail_is(e, f, old(self).toks()) && final(self).at() == f.pos(),
            },
            old(self).ends(final(self), r, trait_end(old(self).toks(), old(self).at())),
            r matches Ok(st) ==> trait_ok(old(self).toks(), old(self).at(), final(self).at(), st),
    {
        let ghost t = self.toks();
        proof { self.lemma_wf(); }
        let start_span = self.current_span();
        self.expect(TokenKind::Trait)?;
        proof { self.lemma_wf(); }
        let first_ref = self.parse_field_reference()?;
        proof { self.lemma_wf(); }
        let (target, type_ref) = if self.check(TokenKind::Name) {
            let tr = self.parse_type_reference()?;
            (Some(first_ref), tr)
        } else {
            let names = Self::part_names(&first_ref.parts);
            (None, TypeRef { parts: names, span: first_ref.span })
        };
        proof { self.lemma_wf(); }
        let constructor = if self.match_token(TokenKind::DoubleColon) {
            proof { self.lemma_wf(); }
            Some(self.parse_identifier()?)
        } else {
            None
        };
        proof { self.lemma_wf(); }
        let template = if self.check(TokenKind::LessThan) {
            Some(self.parse_template()?)
        } else {
            None
        };
        let end_span = self.previous_span();
        Ok(Statement::Trait(TraitStmt { target, type_ref, constructor, template, span: start_span.merge(&end_span) }))
    }

    /// Parses a string standing as a statement (a docstring).
    fn parse_string_statement(&mut self) -> (r: Result<Statement, ParseError>)
        requires
            old(self).wf(),
            old(self).cur().kind == TokenKind::String,
        ensures
            old(self).stmt_step(final(self), r),
            r matches Ok(Statement::StringStmt(s)) && string_of(s.value, old(self).cur())
                && s.span == old(self).cur().span,
            final(self).at() == old(self).at() + 1,
            old(self).ends(final(self), r, Ok::<int, Fail>(old(self).at() + 1)),
    {
        let s = self.parse_string_literal()?;
        Ok(Statement::StringStmt(StringStmt { span: s.span, value: s }))
    }

    /// What a statement that starts with a name gives (see `name_stmt_res`).
    pub open spec fn name_stmt_ok(&self, after: &Parser<'a>, r: Result<Statement, ParseError>) -> bool {
        name_stmt_res(self.toks(), self.at(), after.at(), r)
    }

    /// Parses a statement that starts with a field reference: a declaration `f: T`
    /// (perhaps with `= value`), an assignment `f = value`, `f += e`, `f -= e`, `f |= e`,
    /// `f &= e`, a connection `f ~ g`, a chain `f ~> g ~> ...` or `f <~ g <~ ...`, or a
    /// retype `f -> T`; the token after the reference decides which.
    fn parse_name_starting_statement(&mut self) -> (r: Result<Statement, ParseError>)
        requires
            old(self).wf(),
            old(self).cur().kind == TokenKind::Name,
        ensures
            old(self).stmt_step(final(self), r),
            old(self).name_stmt_ok(final(self), r),
            old(self).ends(final(self), r, name_stmt_end(old(self).toks(), old(self).at())),
    {
        let ghost t = self.toks();
        let ghost p = self.at();
        proof {
            self.lemma_wf();
            if let Ok(q0) = part_end(t, p) {
                lemma_fref_rest_ge(t, q0);
            }
        }
        let start_span = self.current_span();
        let field_ref = self.parse_field_reference()?;
        proof { self.lemma_wf(); }
        match self.current_kind() {
            TokenKind::Colon => {
                self.advance();
                let decl_type = self.parse_identifier()?;
                let end_span = self.previous_span();
                let decl = Declaration { field: field_ref, type_info: decl_type, span: start_span.merge(&end_span) };
                if self.match_token(TokenKind::Assign) {
                    let value = self.parse_assignable()?;
                    let end_span = self.previous_span();
                    Ok(Statement::Assignment(Assignment {
                        target: AssignTarget::Declaration(decl),
                        value,
                        span: start_span.merge(&end_span),
                    }))
                } else {
                    Ok(Statement::Declaration(decl))
                }
            },
            TokenKind::Assign => {
                self.advance();
                let value = self.parse_assignable()?;
                let end_span = self.previous_span();
                Ok(Statement::Assignment(Assignment {
                    target: AssignTarget::FieldRef(field_ref),
                    value,
                    span: start_span.merge(&end_span),
                }))
            },
            TokenKind::AddAssign | TokenKind::SubAssign => {
                let op = if self.match_token(TokenKind::AddAssign) {
                    CumOperator::Add
                } else {
                    self.advance();
                    CumOperator::Sub
                };
                let value = self.parse_arithmetic_expression()?;
                let end_span = self.previous_span();
                Ok(Statement::CumAssignment(CumAssignment {
                    target: AssignTarget::FieldRef(field_ref),
                    operator: op,
                    value,
                    span: start_span.merge(&end_span),
                }))
            },
            TokenKind::OrAssign | TokenKind::AndAssign => {
                let op = if self.match_token(TokenKind::OrAssign) {
                    SetOperator::Or
                } else {
                    self.advance();
                    SetOperator::And
                };
                let value = self.parse_arithmetic_expression()?;
                let end_span = self.previous_span();
                Ok(Statement::SetAssignment(SetAssignment {
                    target: AssignTarget::FieldRef(field_ref),
                    operator: op,
                    value,
                    span: start_span.merge(&end_span),
                }))
            },
            TokenKind::Wire => {
                self.advance();
                let right = self.parse_connectable()?;
                let end_span = self.previous_span();
                Ok(Statement::Connection(Connection {
                    left: Connectable::FieldRef(field_ref),
                    right,
                    span: start_span.merge(&end_span),
                }))
            },
            TokenKind::Sperm | TokenKind::LSperm => self.parse_chain(Connectable::FieldRef(field_ref), start_span),
            TokenKind::Arrow => {
                self.advance();
                let new_type = self.parse_type_reference()?;
                let end_span = self.previous_span();
                Ok(Statement::Retype(Retype { field: field_ref, new_type, span: start_span.merge(&end_span) }))
            },
            _ => Err(ParseError::expected("assignment, connection, or declaration", self.current_span())),
        }
    }

    /// Parses what a connection connects: `signal name`, `pin name`, or a field reference.
    fn parse_connectable(&mut self) -> (r: Result<Connectable, ParseError>)
        requires
            old(self).wf(),
        ensures
            old(self).kept(final(self)),
            r is Ok ==> old(self).at() < final(self).at(),
            old(self).cur().kind == TokenKind::Signal ==> if is_ident_kind(old(self).tok(old(self).at() + 1).kind) {
                r matches Ok(Connectable::SignalDef(sd)) && ident_of(sd.name, old(self).tok(old(self).at() + 1))
                    && sd.span == span_between(old(self).toks(), old(self).at(), old(self).at() + 2)
                    && final(self).at() == old(self).at() + 2
            } else {
                r matches Err(e) && is_expected(e, "identifier"@, old(self).tok(old(self).at() + 1).span)
                    && final(self).at() == old(self).at() + 1
            },
            old(self).cur().kind == TokenKind::Pin ==> if is_pin_name_kind(old(self).tok(old(self).at() + 1).kind) {
                r matches Ok(Connectable::PinDef(d)) && pin_name_of(d.name, old(self).tok(old(self).at() + 1))
                    && d.span == span_between(old(self).toks(), old(self).at(), old(self).at() + 2)
                    && final(self).at() == old(self).at() + 2
            } else {
                r matches Err(e) && is_expected(e, "pin name"@, old(self).tok(old(self).at() + 1).span)
                    && final(self).at() == old(self).at() + 1
            },
            old(self).cur().kind == TokenKind::Name ==> match fref_end(old(self).toks(), old(self).at()) {
                Ok(q) => r matches Ok(Connectable::FieldRef(fr)) && fref_of(fr, old(self).toks(), old(self).at(), q)
                    && final(self).at() == q,
                Err(f) => r matches Err(e) && fail_is(e, f, old(self).toks()) && final(self).at() == f.pos(),
            },
            !matches!(old(self).cur().kind, TokenKind::Signal | TokenKind::Pin | TokenKind::Name) ==> (r matches Err(e)
                && is_expected(e, "connectable"@, old(self).cur().span) && final(self).at() == old(self).at()),
            r matches Ok(c) ==> connectable_parse(c, old(self).toks(), old(self).at()) == Some(final(self).at()),
            match connectable_end(old(self).toks(), old(self).at()) {
                Ok(q) => r is Ok && final(self).at() == q,
                Err(f) => r matches Err(e) && fail_is(e, f, old(self).toks()) && final(self).at() == f.pos(),
            },
    {
        proof {
            self.lemma_wf();
            if let Ok(q0) = part_end(self.toks(), self.at()) {
                lemma_fref_rest_ge(self.toks(), q0);
            }
        }
        match self.current_kind() {
            TokenKind::Signal => {
                let start_span = self.current_span();
                self.advance();
                let name = self.parse_identifier()?;
                let end_span = self.previous_span();
                Ok(Connectable::SignalDef(SignalDef { name, span: start_span.merge(&end_span) }))
            },
            TokenKind::Pin => {
                let start_span = self.current_span();
                self.advance();
                let name = self.parse_pin_name()?;
                let end_span = self.previous_span();
                Ok(Connectable::PinDef(PinDeclaration { name, span: start_span.merge(&end_span) }))
            },
            TokenKind::Name => {
                let field_ref = self.parse_field_reference()?;
                Ok(Connectable::FieldRef(field_ref))
            },
            _ => Err(ParseError::expected("connectable", self.current_span())),
        }
    }

    /// Parses `for variable in iterable: block`.
    fn parse_for_statement(&mut self) -> (r: Result<Statement, ParseError>)
        requires
            old(self).wf(),
            old(self).cur().kind == TokenKind::For,
        ensures
            old(self).stmt_step(final(self), r),
            !is_ident_kind(old(self).tok(old(self).at() + 1).kind) ==> (r matches Err(e)
                && is_expected(e, "identifier"@, old(self).tok(old(self).at() + 1).span)
                && final(self).at() == old(self).at() + 1),
            r matches Ok(Statement::For(f)) ==> ident_of(f.variable, old(self).tok(old(self).at() + 1))
                && f.span == span_between(old(self).toks(), old(self).at(), final(self).at())
                && old(self).tok(old(self).at() + 2).kind == TokenKind::In
                && (old(self).tok(old(self).at() + 3).kind == TokenKind::OpenBracket ==> f.iterable is List)
                && (old(self).tok(old(self).at() + 3).kind != TokenKind::OpenBracket ==> (
                    fref_end(old(self).toks(), old(self).at() + 3) matches Ok(q)
                    && f.iterable matches Iterable::FieldRef { field, slice }
                    && fref_of(field, old(self).toks(), old(self).at() + 3, q)
                    && (slice is Some <==> old(self).tok(q).kind == TokenKind::OpenBracket))),
            old(self).ends(final(self), r, for_end(old(self).toks(), old(self).at())),
            r matches Ok(s) ==> stmt_ok(old(self).toks(), old(self).at(), final(self).at(), s),
        decreases old(self).toks().len() - old(self).at(), 4int,
    {
        proof { self.lemma_wf(); }
        let start_span = self.current_span();
        self.expect(TokenKind::For)?;
        proof { self.lemma_wf(); }
        let variable = self.parse_identifier()?;
        proof { self.lemma_wf(); }
        self.expect(TokenKind::In)?;
        proof { self.lemma_wf(); }
        let ghost t = self.toks();
        let ghost p = self.at() - 3;
        let iterable = self.parse_iterable()?;
        proof { self.lemma_wf(); }
        let ghost q = self.at();
        self.expect(TokenKind::Colon)?;
        proof {
            self.lemma_wf();
            assert(for_end(t, p) == block_end(t, q + 1));
        }
        let body = self.parse_block()?;
        let end_span = self.previous_span();
        Ok(Statement::For(ForStmt { variable, iterable, body, span: start_span.merge(&end_span) }))
    }

    /// Parses what a `for` loop runs over: a list `[a, b, ...]` of field references (a
    /// trailing comma allowed), or a field reference with an optional slice.
    fn parse_iterable(&mut self) -> (r: Result<Iterable, ParseError>)
        requires
            old(self).wf(),
        ensures
            old(self).kept(final(self)),
            (old(self).cur().kind == TokenKind::OpenBracket && r is Ok) ==> r->Ok_0 is List,
            old(self).cur().kind != TokenKind::OpenBracket ==> match fref_end(old(self).toks(), old(self).at()) {
                Ok(q) => r is Ok ==> (r->Ok_0 matches Iterable::FieldRef { field, slice }
                    && fref_of(field, old(self).toks(), old(self).at(), q)
                    && (slice is Some <==> old(self).tok(q).kind == TokenKind::OpenBracket)),
                Err(f) => r matches Err(e) && fail_is(e, f, old(self).toks()) && final(self).at() == f.pos(),
            },
            old(self).ends(final(self), r, iterable_end(old(self).toks(), old(self).at())),
    {
        let ghost t = self.toks();
        let ghost p = self.at();
        if self.match_token(TokenKind::OpenBracket) {
            let mut fields: Vec<FieldRef> = Vec::new();
            if !self.check(TokenKind::CloseBracket) {
                proof {
                    self.lemma_wf();
                    if let Ok(q0) = part_end(self.toks(), self.at()) {
                        lemma_fref_rest_ge(self.toks(), q0);
                    }
                }
                let f = self.parse_field_reference()?;
                fields.push(f);
                let ghost q0 = self.at();
                while self.check(TokenKind::Comma) && !self.peek_is(TokenKind::CloseBracket)
                    invariant
                        self.wf(),
                        self.toks() == t,
                        t == old(self).toks(),
                        p == old(self).at(),
                        p < self.at(),
                        t[p].kind == TokenKind::OpenBracket,
                        t[p + 1].kind != TokenKind::CloseBracket,
                        fref_end(t, p + 1) == Ok::<int, Fail>(q0),
                        list_rest(t, self.at()) == list_rest(t, q0),
                    decreases t.len() - self.at(),
                {
                    proof {
                        self.lemma_wf();
                        let m = self.at();
                        assert(list_rest(t, m) == match fref_end(t, m + 1) {
                            Ok(q) => if m < q <= t.len() { list_rest(t, q) } else { Ok(q) },
                            Err(f) => Err::<int, Fail>(f),
                        });
                    }
                    self.advance();
                    proof {
                        self.lemma_wf();
                        if let Ok(q0) = part_end(self.toks(), self.at()) {
                            lemma_fref_rest_ge(self.toks(), q0);
                        }
                    }
                    let f = self.parse_field_reference()?;
                    fields.push(f);
                    proof { self.lemma_wf(); }
                }
                proof {
                    self.lemma_wf();
                    assert(list_rest(t, self.at()) == Ok::<int, Fail>(self.at()));
                }
                if self.check(TokenKind::Comma) {
                    self.advance();
                }
            }
            self.expect(TokenKind::CloseBracket)?;
            Ok(Iterable::List(fields))
        } else {
            let field = self.parse_field_reference()?;
            let slice = if self.check(TokenKind::OpenBracket) {
                Some(self.parse_slice()?)
            } else {
                None
            };
            Ok(Iterable::FieldRef { field, slice })
        }
    }

    /// Parses the whole file: statements up to the end, newlines between them skipped.
    pub fn parse_file(&mut self) -> (r: Result<File, ParseError>)
        requires
            old(self).wf(),
        ensures
            old(self).kept(final(self)),
            r matches Ok(f) ==> final(self).cur().kind == TokenKind::Eof
                && f.span == span_between(old(self).toks(), old(self).at(), final(self).at()),
            (forall|i: int| old(self).at() <= i < old(self).toks().len() ==> #[trigger] old(self).toks()[i].kind
                == TokenKind::Newline || old(self).toks()[i].kind == TokenKind::Eof) ==> (r matches Ok(f)
                && f.statements@.len() == 0),
            r matches Ok(f) ==> file_parses(f.statements@, old(self).toks(), old(self).at(), final(self).at()),
            old(self).ends(final(self), r, file_end(old(self).toks(), old(self).at())),
    {
        let ghost t = self.toks();
        let ghost p = self.at();
        proof { self.lemma_wf(); }
        let start_span = self.current_span();
        let mut statements: Vec<Statement> = Vec::new();
        let ghost mut st: Seq<int> = Seq::empty();
        let ghost mut en: Seq<int> = Seq::empty();
        while !self.is_at_end()
            invariant
                self.wf(),
                self.toks() == t,
                t == old(self).toks(),
                p == old(self).at(),
                p <= self.at(),
                start_span == t[p].span,
                (forall|i: int| p <= i < t.len() ==> #[trigger] t[i].kind == TokenKind::Newline
                    || t[i].kind == TokenKind::Eof) ==> statements@.len() == 0,
                stmts_derived(statements@, st, en, t, p, self.at()),
                file_end(t, self.at()) == file_end(t, p),
            decreases t.len() - self.at(),
        {
            proof { self.lemma_wf(); }
            if self.check(TokenKind::Newline) {
                proof {
                    lemma_derived_newline(statements@, st, en, t, p, self.at());
                }
                self.advance();
                continue;
            }
            proof {
                assert(!(t[self.at()].kind == TokenKind::Newline || t[self.at()].kind == TokenKind::Eof));
            }
            let ghost a = self.at();
            let ghost ss0 = statements@;
            proof {
                assert(file_end(t, a) == match stmt_end(t, a) {
                    Ok(q) => if a < q <= t.len() { file_end(t, q) } else { Ok(q) },
                    Err(f) => Err::<int, Fail>(f),
                });
            }
            let stmt = self.parse_statement()?;
            proof { self.lemma_wf(); }
            proof {
                lemma_derived_push(ss0, st, en, t, p, a, stmt, self.at());
            }
            statements.push(stmt);
            proof {
                st = st.push(a);
                en = en.push(self.at());
            }
        }
        proof {
            self.lemma_wf();
            assert(file_end(t, self.at()) == Ok::<int, Fail>(self.at()));
        }
        let end_span = self.previous_span();
        let file = File { statements, span: start_span.merge(&end_span) };
        proof {
            assert(file_derived(file.statements@, st, en, t, p, self.at()));
            assert(file_parses(file.statements@, t, p, self.at()));
        }
        Ok(file)
    }
}

/// Parses Ato source code into a syntax tree.
pub fn parse(source: &str) -> (r: Result<File, ParseError>)
    requires
        within_limits(source@),
    ensures
        (forall|i: int| 0 <= i < spec_lex(source@).len() ==> #[trigger] spec_lex(source@)[i].kind
            == TokenKind::Newline || spec_lex(source@)[i].kind == TokenKind::Eof) ==> (r matches Ok(f)
            && f.statements@.len() == 0),
        r matches Ok(f) ==> exists|q: int| file_parses(f.statements@, spec_lex(source@), 0, q),
        r is Ok <==> file_end(spec_lex(source@), 0) is Ok,
        file_end(spec_lex(source@), 0) matches Err(fl) ==> (r matches Err(e) && fail_is(e, fl, spec_lex(source@))),
{
    let mut parser = Parser::new(source);
    proof {
        assert(forall|i: int| 0 <= i < parser.toks().len() ==> parser.tok(i) == #[trigger] spec_lex(source@)[i]);
    }
    let r = parser.parse_file();
    proof {
        if r is Ok {
            assert(file_parses(r->Ok_0.statements@, spec_lex(source@), 0, parser.at()));
        }
    }
    r
}

} // verus!
