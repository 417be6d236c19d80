//! Abstract syntax tree of the Ato language.

use vstd::prelude::*;
use crate::token::Span;

verus! {

/// A complete Ato source file.
#[derive(Debug, PartialEq)]
pub struct File {
    pub statements: Vec<Statement>,
    pub span: Span,
}

/// A statement of the Ato language.
#[derive(Debug, PartialEq)]
pub enum Statement {
    /// `#pragma experiment("NAME")`
    Pragma(PragmaStmt),
    /// `import X` or `from "path" import X`
    Import(ImportStmt),
    /// `import X from "path"` (deprecated form)
    DepImport(DepImportStmt),
    /// `module M:`, `component C:`, `interface I:`
    BlockDef(BlockDef),
    /// `x = value`
    Assignment(Assignment),
    /// `x += value` or `x -= value`
    CumAssignment(CumAssignment),
    /// `x |= value` or `x &= value`
    SetAssignment(SetAssignment),
    /// `a ~ b`
    Connection(Connection),
    /// `a ~> b ~> c` or `a <~ b <~ c`
    DirectedConnection(DirectedConnection),
    /// `x -> Type`
    Retype(Retype),
    /// `pin name`
    PinDeclaration(PinDeclaration),
    /// `signal name`
    SignalDef(SignalDef),
    /// `assert x within 1V to 2V`
    Assert(AssertStmt),
    /// `field: type`
    Declaration(Declaration),
    /// A string literal standing as a statement (a docstring)
    StringStmt(StringStmt),
    /// `pass`
    Pass(PassStmt),
    /// `trait name<arg=value>`
    Trait(TraitStmt),
    /// `for item in container: body`
    For(ForStmt),
}

impl Statement {
    /// The span of the statement.
    pub open spec fn spec_span(&self) -> Span {
        match self {
            Statement::Pragma(s) => s.span,
            Statement::Import(s) => s.span,
            Statement::DepImport(s) => s.span,
            Statement::BlockDef(s) => s.span,
            Statement::Assignment(s) => s.span,
            Statement::CumAssignment(s) => s.span,
            Statement::SetAssignment(s) => s.span,
            Statement::Connection(s) => s.span,
            Statement::DirectedConnection(s) => s.span,
            Statement::Retype(s) => s.span,
            Statement::PinDeclaration(s) => s.span,
            Statement::SignalDef(s) => s.span,
            Statement::Assert(s) => s.span,
            Statement::Declaration(s) => s.span,
            Statement::StringStmt(s) => s.span,
            Statement::Pass(s) => s.span,
            Statement::Trait(s) => s.span,
            Statement::For(s) => s.span,
        }
    }

    pub fn span(&self) -> (r: Span)
        ensures
            r == self.spec_span(),
    {
        match self {
            Statement::Pragma(s) => s.span,
            Statement::Import(s) => s.span,
            Statement::DepImport(s) => s.span,
            Statement::BlockDef(s) => s.span,
            Statement::Assignment(s) => s.span,
            Statement::CumAssignment(s) => s.span,
            Statement::SetAssignment(s) => s.span,
            Statement::Connection(s) => s.span,
            Statement::DirectedConnection(s) => s.span,
            Statement::Retype(s) => s.span,
            Statement::PinDeclaration(s) => s.span,
            Statement::SignalDef(s) => s.span,
            Statement::Assert(s) => s.span,
            Statement::Declaration(s) => s.span,
            Statement::StringStmt(s) => s.span,
            Statement::Pass(s) => s.span,
            Statement::Trait(s) => s.span,
            Statement::For(s) => s.span,
        }
    }
}

/// `#pragma ...`
#[derive(Debug, Clone, PartialEq)]
pub struct PragmaStmt {
    pub content: String,
    pub span: Span,
}

/// `import X, Y` or `from "path" import X, Y`
#[derive(Debug, Clone, PartialEq)]
pub struct ImportStmt {
    /// The optional `from "path"` source
    pub from_path: Option<StringLiteral>,
    /// The imported type references
    pub imports: Vec<TypeRef>,
    pub span: Span,
}

/// `import X from "path"`
#[derive(Debug, Clone, PartialEq)]
pub struct DepImportStmt {
    /// The imported type
    pub type_ref: TypeRef,
    /// The source path
    pub from_path: StringLiteral,
    pub span: Span,
}

/// A block definition: `module`, `component` or `interface`.
#[derive(Debug, PartialEq)]
pub struct BlockDef {
    pub kind: BlockKind,
    pub name: Identifier,
    /// The optional `from Base` super type
    pub super_type: Option<TypeRef>,
    pub body: Vec<Statement>,
    pub span: Span,
}

/// The kind of a block definition.
#[derive(Debug, Clone, Copy, PartialEq, Eq, Structural)]
pub enum BlockKind {
    Module,
    Component,
    Interface,
}

/// `target = value`
#[derive(Debug, PartialEq)]
pub struct Assignment {
    pub target: AssignTarget,
    pub value: Assignable,
    pub span: Span,
}

/// What an assignment assigns to.
#[derive(Debug, Clone, PartialEq)]
pub enum AssignTarget {
    FieldRef(FieldRef),
    Declaration(Declaration),
}

/// `target += value` or `target -= value`
#[derive(Debug, PartialEq)]
pub struct CumAssignment {
    pub target: AssignTarget,
    pub operator: CumOperator,
    pub value: Expression,
    pub span: Span,
}

/// `+=` or `-=`
#[derive(Debug, Clone, Copy, PartialEq, Eq, Structural)]
pub enum CumOperator {
    Add,
    Sub,
}

/// `target |= value` or `target &= value`
#[derive(Debug, PartialEq)]
pub struct SetAssignment {
    pub target: AssignTarget,
    pub operator: SetOperator,
    pub value: Expression,
    pub span: Span,
}

/// `|=` or `&=`
#[derive(Debug, Clone, Copy, PartialEq, Eq, Structural)]
pub enum SetOperator {
    Or,
    And,
}

/// The value of an assignment.
#[derive(Debug, PartialEq)]
pub enum Assignable {
    String(StringLiteral),
    New(NewExpr),
    Physical(PhysicalLiteral),
    Arithmetic(Expression),
    Boolean(BoolLiteral),
}

/// `left ~ right`
#[derive(Debug, Clone, PartialEq)]
pub struct Connection {
    pub left: Connectable,
    pub right: Connectable,
    pub span: Span,
}

/// `a ~> b ~> c` or `a <~ b <~ c`
#[derive(Debug, Clone, PartialEq)]
pub struct DirectedConnection {
    pub direction: ConnectionDirection,
    pub elements: Vec<Connectable>,
    pub span: Span,
}

/// `~>` or `<~`
#[derive(Debug, Clone, Copy, PartialEq, Eq, Structural)]
pub enum ConnectionDirection {
    Forward,
    Backward,
}

/// What a connection connects.
#[derive(Debug, Clone, PartialEq)]
pub enum Connectable {
    FieldRef(FieldRef),
    SignalDef(SignalDef),
    PinDef(PinDeclaration),
}

/// `field -> Type`
#[derive(Debug, Clone, PartialEq)]
pub struct Retype {
    pub field: FieldRef,
    pub new_type: TypeRef,
    pub span: Span,
}

/// `field: type`
#[derive(Debug, Clone, PartialEq)]
pub struct Declaration {
    pub field: FieldRef,
    pub type_info: Identifier,
    pub span: Span,
}

/// `pin name`
#[derive(Debug, Clone, PartialEq)]
pub struct PinDeclaration {
    pub name: PinName,
    pub span: Span,
}

/// The name of a pin: an identifier, a number or a string.
#[derive(Debug, Clone, PartialEq)]
pub enum PinName {
    Identifier(Identifier),
    Number(NumberLiteral),
    String(StringLiteral),
}

/// `signal name`
#[derive(Debug, Clone, PartialEq)]
pub struct SignalDef {
    pub name: Identifier,
    pub span: Span,
}

/// `assert comparison`
#[derive(Debug, PartialEq)]
pub struct AssertStmt {
    pub comparison: Comparison,
    pub span: Span,
}

/// An expression followed by one or more comparisons.
#[derive(Debug, PartialEq)]
pub struct Comparison {
    pub left: Expression,
    pub operations: Vec<CompareOp>,
    pub span: Span,
}

/// One comparison operator and its right-hand side.
#[derive(Debug, PartialEq)]
pub struct CompareOp {
    pub kind: CompareOpKind,
    pub right: Expression,
    pub span: Span,
}

/// A comparison operator.
#[derive(Debug, Clone, Copy, PartialEq, Eq, Structural)]
pub enum CompareOpKind {
    LessThan,
    GreaterThan,
    LessEq,
    GreaterEq,
    Within,
    Is,
}

/// A string literal standing as a statement.
#[derive(Debug, Clone, PartialEq)]
pub struct StringStmt {
    pub value: StringLiteral,
    pub span: Span,
}

/// `pass`
#[derive(Debug, Clone, PartialEq)]
pub struct PassStmt {
    pub span: Span,
}

/// `trait [target] Type[::constructor][<args>]`
#[derive(Debug, Clone, PartialEq)]
pub struct TraitStmt {
    /// The optional target field
    pub target: Option<FieldRef>,
    pub type_ref: TypeRef,
    /// The optional constructor name
    pub constructor: Option<Identifier>,
    /// The optional template arguments
    pub template: Option<Template>,
    pub span: Span,
}

/// `for variable in iterable: body`
#[derive(Debug, PartialEq)]
pub struct ForStmt {
    pub variable: Identifier,
    pub iterable: Iterable,
    pub body: Vec<Statement>,
    pub span: Span,
}

/// What a `for` loop runs over.
#[derive(Debug, Clone, PartialEq)]
pub enum Iterable {
    FieldRef { field: FieldRef, slice: Option<Slice> },
    List(Vec<FieldRef>),
}

/// An expression.
#[derive(Debug, PartialEq)]
pub enum Expression {
    /// A binary operation
    Binary(Box<BinaryExpr>),
    /// A unary operation (such as `-x`)
    Unary(Box<UnaryExpr>),
    /// A literal value
    Literal(Literal),
    /// A field reference (`a.b.c`, `a[0]`)
    FieldRef(FieldRef),
    /// A parenthesised expression: `(expr)`
    Group(Box<Expression>),
    /// A function call: `name(args)`
    FunctionCall(FunctionCall),
}

impl Expression {
    /// The span of the expression; that of a group is the span of what it holds.
    pub open spec fn spec_span(&self) -> Span
        decreases self,
    {
        match self {
            Expression::Binary(e) => e.span,
            Expression::Unary(e) => e.span,
            Expression::Literal(l) => l.spec_span(),
            Expression::FieldRef(f) => f.span,
            Expression::Group(e) => e.spec_span(),
            Expression::FunctionCall(f) => f.span,
        }
    }

    pub fn span(&self) -> (r: Span)
        ensures
            r == self.spec_span(),
        decreases self,
    {
        match self {
            Expression::Binary(e) => e.span,
            Expression::Unary(e) => e.span,
            Expression::Literal(l) => l.span(),
            Expression::FieldRef(f) => f.span,
            Expression::Group(e) => e.span(),
            Expression::FunctionCall(f) => f.span,
        }
    }
}

/// `left operator right`
#[derive(Debug, PartialEq)]
pub struct BinaryExpr {
    pub left: Expression,
    pub operator: BinaryOp,
    pub right: Expression,
    pub span: Span,
}

/// A binary operator.
#[derive(Debug, Clone, Copy, PartialEq, Eq, Structural)]
pub enum BinaryOp {
    /// `+`
    Add,
    /// `-`
    Sub,
    /// `*`
    Mul,
    /// `/`
    Div,
    /// `**`
    Power,
    /// `|`
    BitOr,
    /// `&`
    BitAnd,
}

/// `operator operand`
#[derive(Debug, PartialEq)]
pub struct UnaryExpr {
    pub operator: UnaryOp,
    pub operand: Expression,
    pub span: Span,
}

/// A unary operator.
#[derive(Debug, Clone, Copy, PartialEq, Eq, Structural)]
pub enum UnaryOp {
    /// `-`
    Neg,
    /// `+`
    Pos,
}

/// `name(args)`
#[derive(Debug, PartialEq)]
pub struct FunctionCall {
    pub name: Identifier,
    pub args: Vec<Expression>,
    pub span: Span,
}

/// A literal.
#[derive(Debug, Clone, PartialEq)]
pub enum Literal {
    Number(NumberLiteral),
    String(StringLiteral),
    Bool(BoolLiteral),
    Physical(PhysicalLiteral),
}

impl Literal {
    /// The span of the literal.
    pub open spec fn spec_span(&self) -> Span {
        match self {
            Literal::Number(n) => n.span,
            Literal::String(s) => s.span,
            Literal::Bool(b) => b.span,
            Literal::Physical(p) => p.spec_span(),
        }
    }

    pub fn span(&self) -> (r: Span)
        ensures
            r == self.spec_span(),
    {
        match self {
            Literal::Number(n) => n.span,
            Literal::String(s) => s.span,
            Literal::Bool(b) => b.span,
            Literal::Physical(p) => p.span(),
        }
    }
}

/// A number as written.
#[derive(Debug, Clone, PartialEq)]
pub struct NumberLiteral {
    pub value: String,
    pub span: Span,
}

/// A string literal as written, quotes included.
#[derive(Debug, Clone, PartialEq)]
pub struct StringLiteral {
    pub value: String,
    pub span: Span,
}

/// `True` or `False`
#[derive(Debug, Clone, PartialEq)]
pub struct BoolLiteral {
    pub value: bool,
    pub span: Span,
}

/// A physical quantity literal.
#[derive(Debug, Clone, PartialEq)]
pub enum PhysicalLiteral {
    /// A single quantity: `5V`, `10kohm`
    Quantity(Quantity),
    /// A range: `1V to 2V`
    Range(QuantityRange),
    /// A quantity with a tolerance: `5V +/- 10%`
    Bilateral(BilateralQuantity),
}

impl PhysicalLiteral {
    /// The span of the literal.
    pub open spec fn spec_span(&self) -> Span {
        match self {
            PhysicalLiteral::Quantity(q) => q.span,
            PhysicalLiteral::Range(r) => r.span,
            PhysicalLiteral::Bilateral(b) => b.span,
        }
    }

    pub fn span(&self) -> (r: Span)
        ensures
            r == self.spec_span(),
    {
        match self {
            PhysicalLiteral::Quantity(q) => q.span,
            PhysicalLiteral::Range(r) => r.span,
            PhysicalLiteral::Bilateral(b) => b.span,
        }
    }
}

/// A number with an optional unit.
#[derive(Debug, Clone, PartialEq)]
pub struct Quantity {
    pub number: NumberLiteral,
    pub unit: Option<Identifier>,
    pub span: Span,
}

/// `from to to`
#[derive(Debug, Clone, PartialEq)]
pub struct QuantityRange {
    pub from: Quantity,
    pub to: Quantity,
    pub span: Span,
}

/// `base +/- tolerance`
#[derive(Debug, Clone, PartialEq)]
pub struct BilateralQuantity {
    pub base: Quantity,
    pub tolerance: Tolerance,
    pub span: Span,
}

/// The tolerance of a bilateral quantity: a number, then `%` or an optional unit.
#[derive(Debug, Clone, PartialEq)]
pub struct Tolerance {
    pub value: String,
    pub is_percent: bool,
    pub unit: Option<Identifier>,
    pub span: Span,
}

/// `new Type[count]<template>`
#[derive(Debug, Clone, PartialEq)]
pub struct NewExpr {
    pub type_ref: TypeRef,
    /// The optional array count: `new Type[10]`
    pub count: Option<NumberLiteral>,
    /// The optional template arguments: `new Type<param=value>`
    pub template: Option<Template>,
    pub span: Span,
}

/// `<name=value, ...>`
#[derive(Debug, Clone, PartialEq)]
pub struct Template {
    pub args: Vec<TemplateArg>,
    pub span: Span,
}

/// `name=value`
#[derive(Debug, Clone, PartialEq)]
pub struct TemplateArg {
    pub name: Identifier,
    pub value: Literal,
    pub span: Span,
}

/// A field reference: `a.b[0].c`, with an optional trailing pin number `.1`.
#[derive(Debug, Clone, PartialEq)]
pub struct FieldRef {
    pub parts: Vec<FieldRefPart>,
    /// The optional trailing pin reference: `.1`
    pub pin_ref: Option<NumberLiteral>,
    pub span: Span,
}

/// One part of a field reference: a name and an optional index.
#[derive(Debug, Clone, PartialEq)]
pub struct FieldRefPart {
    pub name: Identifier,
    /// The optional array index: `[0]`
    pub index: Option<NumberLiteral>,
    pub span: Span,
}

/// A dotted type reference: `a.b.C`
#[derive(Debug, Clone, PartialEq)]
pub struct TypeRef {
    pub parts: Vec<Identifier>,
    pub span: Span,
}

/// `[start:stop:step]`, each part optional.
#[derive(Debug, Clone, PartialEq)]
pub struct Slice {
    pub start: Option<NumberLiteral>,
    pub stop: Option<NumberLiteral>,
    pub step: Option<NumberLiteral>,
    pub span: Span,
}

/// A name with its span.
#[derive(Debug, Clone, PartialEq)]
pub struct Identifier {
    pub name: String,
    pub span: Span,
}

} // verus!
