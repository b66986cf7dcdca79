//! Parts of syntax trees as separate records.
use vstd::prelude::*;
use crate::compiler::parser::ast::{BinaryOperator, Comparator, Constant, Expr, Expression, Ident, Statement};
use crate::native_types::LeBlancType;

verus! {

/// A variable declared with its type.
#[derive(Debug)]
pub struct TypedVariable {
    pub typing: LeBlancType,
    pub variable: Ident,
}

impl TypedVariable {
    pub fn new(typing: LeBlancType, variable: Ident) -> (r: TypedVariable)
        ensures
            r.typing == typing,
            r.variable == variable,
    {
        TypedVariable { typing, variable }
    }
}

/// The errors an `except` clause catches and the variable it binds.
#[derive(Debug)]
pub struct ExceptCatch {
    pub errors: Vec<LeBlancType>,
    pub variable: String,
}

/// A name used as an expression.
#[derive(Debug)]
pub struct ExprIdent {
    pub ident: Ident,
}

/// A property of a class: its type, its name and its initial value, if any.
#[derive(Debug)]
pub struct Property {
    pub typing: LeBlancType,
    pub ident: String,
    pub value: Option<Expression>,
}

/// A range: where it starts, its bound and its step.
#[derive(Debug)]
pub struct RangeExpression {
    pub start: Expression,
    pub bound: Expression,
    pub step: Expression,
}

/// A call of a function by name.
#[derive(Debug)]
pub struct StaticMethodCall {
    pub method_name: Expression,
    pub args: Vec<Expression>,
}

/// A call of a method of an object.
#[derive(Debug)]
pub struct ClassMethodCall {
    pub class: Expression,
    pub method_name: Ident,
    pub args: Vec<Expression>,
}

/// An indexing of a list.
#[derive(Debug)]
pub struct ListIndex {
    pub list: Expression,
    pub slice: Expr,
}

/// A slice between two bounds.
#[derive(Debug)]
pub struct Slice {
    pub left: Expression,
    pub right: Expression,
}

/// A run of indices.
#[derive(Debug)]
pub struct SeriesIndex {
    pub indices: Vec<Expression>,
}

/// A comparison.
#[derive(Debug)]
pub struct Equality {
    pub left: Expression,
    pub comparator: Comparator,
    pub right: Expression,
}

/// A list.
#[derive(Debug)]
pub struct List {
    pub items: Expression,
}

/// An addition or subtraction.
#[derive(Debug)]
pub struct ArithPlusMinusOperation {
    pub left: Expression,
    pub op: BinaryOperator,
    pub right: Expression,
}

/// A multiplication, division or remainder.
#[derive(Debug)]
pub struct ArithMulDivModOperation {
    pub left: Expression,
    pub op: BinaryOperator,
    pub right: Expression,
}

/// A power.
#[derive(Debug)]
pub struct ExponentialOperation {
    pub left: Expression,
    pub op: BinaryOperator,
    pub right: Expression,
}

/// An operator applied to one term.
#[derive(Debug)]
pub struct UnaryOperator {
    pub term: Expression,
    pub op: BinaryOperator,
}

/// An increment or decrement, before or after its term.
#[derive(Debug)]
pub struct IncrementDecrementOperation {
    pub term: Expression,
    pub op: UnaryOperator,
    pub postfix: bool,
}

/// An assignment to an element of a list.
#[derive(Debug)]
pub struct ListAssignment {
    pub list: Expression,
    pub expr: Expression,
}

/// An assignment that declares its names with their types.
#[derive(Debug)]
pub struct TypedAssignment {
    pub idents: Vec<Expression>,
    pub expr: Option<Expression>,
}

/// An assignment to names already declared.
#[derive(Debug)]
pub struct NormalAssignment {
    pub idents: Vec<Ident>,
    pub expr: Expression,
}

/// An assignment of a group.
#[derive(Debug)]
pub struct GroupAssignment {
    pub assignee: Expression,
    pub group: Expression,
}

/// A lambda with a block body.
#[derive(Debug)]
pub struct BlockLambda {
    pub variables: Vec<Ident>,
    pub expr: Statement,
}

/// A lambda with an expression body.
#[derive(Debug)]
pub struct ExprLambda {
    pub variables: Vec<Ident>,
    pub expr: Expression,
}

/// A constant used as an expression.
#[derive(Debug)]
pub struct ExprConst {
    pub constant: Constant,
}

} // verus!
