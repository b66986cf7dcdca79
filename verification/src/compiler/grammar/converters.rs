//! From the types written in the grammar to the types of the language.
use vstd::prelude::*;
use crate::compiler::grammar::ast::ParseType;
use crate::native_types::LeBlancType;

verus! {

/// The language type of a written type. A class or trait is named by text in the
/// grammar and by number in the language: `class_id` is the number its name was given.
pub open spec fn lb_type_of(t: ParseType, class_id: u32) -> LeBlancType {
    match t {
        ParseType::Flex => LeBlancType::Flex,
        ParseType::String => LeBlancType::String,
        ParseType::Int => LeBlancType::Int,
        ParseType::Float => LeBlancType::Float,
        ParseType::Double => LeBlancType::Double,
        ParseType::Function => LeBlancType::Function,
        ParseType::Group => LeBlancType::Group,
        ParseType::Promise => LeBlancType::Promise,
        ParseType::SelfRef => LeBlancType::SelfType,
        ParseType::SuperLambda => LeBlancType::SuperLambda,
        ParseType::Class(_) => LeBlancType::Class(class_id),
        ParseType::Trait(_, b) => LeBlancType::Trait(class_id, b),
    }
}

/// Converts a written type to the language type; a class or trait gets the number
/// `class_id` that its name was given.
pub fn parse_type_to_lb_type(t: ParseType, class_id: u32) -> (r: LeBlancType)
    ensures
        r == lb_type_of(t, class_id),
{
    match t {
        ParseType::Flex => LeBlancType::Flex,
        ParseType::String => LeBlancType::String,
        ParseType::Int => LeBlancType::Int,
        ParseType::Float => LeBlancType::Float,
        ParseType::Double => LeBlancType::Double,
        ParseType::Function => LeBlancType::Function,
        ParseType::Group => LeBlancType::Group,
        ParseType::Promise => LeBlancType::Promise,
        ParseType::SelfRef => LeBlancType::SelfType,
        ParseType::SuperLambda => LeBlancType::SuperLambda,
        ParseType::Class(_) => LeBlancType::Class(class_id),
        ParseType::Trait(_, b) => LeBlancType::Trait(class_id, b),
    }
}

} // verus!
