//! Function arguments as the symbol table records them.
use vstd::prelude::*;
use crate::compiler3::leblanc_type::{LBType, has_bytecode_type, spec_lb_type_of};
use crate::compiler::parser::ast::{Expr, Expression, Location, resolvable, spec_resolve};

verus! {

/// An argument of a function: its name, its type and where it was declared.
#[derive(Debug)]
pub struct FunctionArg {
    pub name: String,
    pub typing: LBType,
    pub location: Location,
}

impl FunctionArg {
    /// The argument a typed name declares: its dotted name, its bytecode type and its
    /// place. Only a typed name declares an argument.
    pub fn from(expr: Expression) -> (r: FunctionArg)
        requires
            expr.data matches Expr::TypedVariable { typing, variable } && resolvable(variable) && has_bytecode_type(
                typing,
            ),
        ensures
            expr.data matches Expr::TypedVariable { typing, variable } && r.name@ == spec_resolve(variable)
                && r.typing == spec_lb_type_of(typing),
            r.location == expr.location,
    {
        match expr.data {
            Expr::TypedVariable { typing, variable } => FunctionArg {
                name: variable.resolve(),
                typing: LBType::from(typing),
                location: expr.location,
            },
            _ => FunctionArg { name: String::new(), typing: LBType::NAT, location: expr.location },
        }
    }
}

} // verus!
