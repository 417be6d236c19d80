//! Constraints: assertions about parameter values
//! (e.g., `assert x within 1V to 2V`).
//!
//! Numeric literal values are held as the bit patterns of their IEEE 754
//! double-precision representation; the library only carries them.

use vstd::prelude::*;
use crate::field::FieldPath;
use crate::ids::{ConstraintId, ModuleId};
use crate::token::Span;

verus! {

/// A constraint (assertion) in a module.
#[derive(Debug)]
pub struct Constraint {
    /// Unique identifier for this constraint.
    pub id: ConstraintId,
    /// The module that contains this constraint.
    pub parent: ModuleId,
    /// The asserted expression.
    pub expression: ConstraintExpr,
    /// Source location for error reporting.
    pub span: Option<Span>,
}

impl Constraint {
    /// A new constraint without a source location.
    pub fn new(id: ConstraintId, parent: ModuleId, expression: ConstraintExpr) -> (c: Self)
        ensures
            c == (Constraint { id, parent, expression, span: None }),
    {
        Constraint { id, parent, expression, span: None }
    }

    /// This constraint with its source span set.
    pub fn with_span(self, span: Span) -> (c: Self)
        ensures
            c == (Constraint { span: Some(span), ..self }),
    {
        let mut c = self;
        c.span = Some(span);
        c
    }
}

/// An asserted comparison chain, e.g. `5V < x < 10V`.
#[derive(Debug)]
pub struct ConstraintExpr {
    /// The left-hand side.
    pub left: ValueExpr,
    /// The comparisons, in order.
    pub operations: Vec<CompareOp>,
}

impl ConstraintExpr {
    /// A comparison chain from its parts.
    pub fn new(left: ValueExpr, operations: Vec<CompareOp>) -> (e: Self)
        ensures
            e.left == left,
            e.operations@ == operations@,
    {
        ConstraintExpr { left, operations }
    }

    /// A single comparison `left op right`.
    pub fn compare(left: ValueExpr, op: CompareOpKind, right: ValueExpr) -> (e: Self)
        ensures
            e.left == left,
            e.operations@ == seq![CompareOp { kind: op, right }],
    {
        let mut operations: Vec<CompareOp> = Vec::new();
        operations.push(CompareOp { kind: op, right });
        ConstraintExpr { left, operations }
    }
}

/// One comparison of a chain.
#[derive(Debug)]
pub struct CompareOp {
    /// The comparison operator.
    pub kind: CompareOpKind,
    /// The right-hand side.
    pub right: ValueExpr,
}

/// A comparison operator.
#[derive(Debug, Clone, Copy, PartialEq, Eq, Structural)]
pub enum CompareOpKind {
    /// `<`
    LessThan,
    /// `>`
    GreaterThan,
    /// `<=`
    LessEq,
    /// `>=`
    GreaterEq,
    /// `within`
    Within,
    /// `is`
    Is,
}

/// The source text of a comparison operator.
pub open spec fn compare_symbol(k: CompareOpKind) -> Seq<char> {
    match k {
        CompareOpKind::LessThan => "<"@,
        CompareOpKind::GreaterThan => ">"@,
        CompareOpKind::LessEq => "<="@,
        CompareOpKind::GreaterEq => ">="@,
        CompareOpKind::Within => "within"@,
        CompareOpKind::Is => "is"@,
    }
}

impl CompareOpKind {
    /// The source text of this operator.
    pub fn symbol(&self) -> (s: &'static str)
        ensures
            s@ == compare_symbol(*self),
    {
        match self {
            CompareOpKind::LessThan => "<",
            CompareOpKind::GreaterThan => ">",
            CompareOpKind::LessEq => "<=",
            CompareOpKind::GreaterEq => ">=",
            CompareOpKind::Within => "within",
            CompareOpKind::Is => "is",
        }
    }
}

/// A value expression in a constraint.
#[derive(Debug)]
pub enum ValueExpr {
    /// A reference to a field.
    FieldRef(FieldPath),
    /// A literal value.
    Literal(ValueLiteral),
    /// A binary operation.
    Binary { left: Box<ValueExpr>, op: BinaryOp, right: Box<ValueExpr> },
    /// A unary operation.
    Unary { op: UnaryOp, operand: Box<ValueExpr> },
    /// A parenthesised expression.
    Group(Box<ValueExpr>),
}

impl ValueExpr {
    /// A field reference.
    pub fn field(path: FieldPath) -> (e: Self)
        ensures
            e == ValueExpr::FieldRef(path),
    {
        ValueExpr::FieldRef(path)
    }

    /// A literal.
    pub fn literal(lit: ValueLiteral) -> (e: Self)
        ensures
            e == ValueExpr::Literal(lit),
    {
        ValueExpr::Literal(lit)
    }

    /// The binary operation `left op right`.
    pub fn binary(left: ValueExpr, op: BinaryOp, right: ValueExpr) -> (e: Self)
        ensures
            e == (ValueExpr::Binary { left: Box::new(left), op, right: Box::new(right) }),
    {
        ValueExpr::Binary { left: Box::new(left), op, right: Box::new(right) }
    }

    /// The unary operation `op operand`.
    pub fn unary(op: UnaryOp, operand: ValueExpr) -> (e: Self)
        ensures
            e == (ValueExpr::Unary { op, operand: Box::new(operand) }),
    {
        ValueExpr::Unary { op, operand: Box::new(operand) }
    }
}

/// A literal value.
#[derive(Debug, Clone)]
pub enum ValueLiteral {
    /// A quantity (e.g., `10kohm`).
    Quantity(QuantityValue),
    /// A range (e.g., `1V to 2V`).
    Range { from: QuantityValue, to: QuantityValue },
    /// A bilateral tolerance (e.g., `10kohm +/- 5%`).
    Bilateral { base: QuantityValue, tolerance: ToleranceValue },
    /// A boolean.
    Bool(bool),
    /// A string.
    String(String),
}

impl ValueLiteral {
    /// A quantity literal whose value has the bit pattern `value_bits`.
    pub fn quantity(value_bits: u64, unit: Option<String>) -> (l: Self)
        ensures
            l == ValueLiteral::Quantity(QuantityValue { value_bits, unit }),
    {
        ValueLiteral::Quantity(QuantityValue { value_bits, unit })
    }

    /// The range `from to to`.
    pub fn range(from: QuantityValue, to: QuantityValue) -> (l: Self)
        ensures
            l == (ValueLiteral::Range { from, to }),
    {
        ValueLiteral::Range { from, to }
    }

    /// The bilateral tolerance `base +/- tolerance`.
    pub fn bilateral(base: QuantityValue, tolerance: ToleranceValue) -> (l: Self)
        ensures
            l == (ValueLiteral::Bilateral { base, tolerance }),
    {
        ValueLiteral::Bilateral { base, tolerance }
    }
}

/// A quantity: a number with an optional unit.
#[derive(Debug, Clone)]
pub struct QuantityValue {
    /// The bit pattern of the numeric value.
    pub value_bits: u64,
    /// The unit (e.g., "V", "kohm").
    pub unit: Option<String>,
}

impl QuantityValue {
    /// A quantity from its value's bit pattern and unit.
    pub fn new(value_bits: u64, unit: Option<String>) -> (q: Self)
        ensures
            q == (QuantityValue { value_bits, unit }),
    {
        QuantityValue { value_bits, unit }
    }

    /// A quantity without a unit.
    pub fn dimensionless(value_bits: u64) -> (q: Self)
        ensures
            q == (QuantityValue { value_bits, unit: None }),
    {
        QuantityValue { value_bits, unit: None }
    }
}

/// A tolerance: a percentage or an absolute amount.
#[derive(Debug, Clone)]
pub struct ToleranceValue {
    /// The bit pattern of the numeric value.
    pub value_bits: u64,
    /// Whether the value is a percentage.
    pub is_percent: bool,
    /// The unit of an absolute tolerance.
    pub unit: Option<String>,
}

impl ToleranceValue {
    /// A percentage tolerance.
    pub fn percent(value_bits: u64) -> (t: Self)
        ensures
            t == (ToleranceValue { value_bits, is_percent: true, unit: None }),
    {
        ToleranceValue { value_bits, is_percent: true, unit: None }
    }

    /// An absolute tolerance.
    pub fn absolute(value_bits: u64, unit: Option<String>) -> (t: Self)
        ensures
            t == (ToleranceValue { value_bits, is_percent: false, unit }),
    {
        ToleranceValue { value_bits, is_percent: false, unit }
    }
}

/// A binary operator.
#[derive(Debug, Clone, Copy, PartialEq, Eq, Structural)]
pub enum BinaryOp {
    /// `+`
    Add,
    /// `-`
    Sub,
    /// `*`
    Mul,
    /// `/`
    Div,
    /// `**`
    Power,
    /// `|`
    BitOr,
    /// `&`
    BitAnd,
}

/// The source text of a binary operator.
pub open spec fn binary_symbol(op: BinaryOp) -> Seq<char> {
    match op {
        BinaryOp::Add => "+"@,
        BinaryOp::Sub => "-"@,
        BinaryOp::Mul => "*"@,
        BinaryOp::Div => "/"@,
        BinaryOp::Power => "**"@,
        BinaryOp::BitOr => "|"@,
        BinaryOp::BitAnd => "&"@,
    }
}

impl BinaryOp {
    /// The source text of this operator.
    pub fn symbol(&self) -> (s: &'static str)
        ensures
            s@ == binary_symbol(*self),
    {
        match self {
            BinaryOp::Add => "+",
            BinaryOp::Sub => "-",
            BinaryOp::Mul => "*",
            BinaryOp::Div => "/",
            BinaryOp::Power => "**",
            BinaryOp::BitOr => "|",
            BinaryOp::BitAnd => "&",
        }
    }
}

/// A unary operator.
#[derive(Debug, Clone, Copy, PartialEq, Eq, Structural)]
pub enum UnaryOp {
    /// `-`
    Neg,
    /// `+`
    Pos,
}

/// The source text of a unary operator.
pub open spec fn unary_symbol(op: UnaryOp) -> Seq<char> {
    match op {
        UnaryOp::Neg => "-"@,
        UnaryOp::Pos => "+"@,
    }
}

impl UnaryOp {
    /// The source text of this operator.
    pub fn symbol(&self) -> (s: &'static str)
        ensures
            s@ == unary_symbol(*self),
    {
        match self {
            UnaryOp::Neg => "-",
            UnaryOp::Pos => "+",
        }
    }
}

} // verus!
