//! The lowered form of symbols.
use vstd::prelude::*;
use crate::compiler::parser::ast::BinaryOperator;

verus! {

/// A binary operator of lowered code.
pub struct STOperator(pub BinaryOperator);

} // verus!
