pub mod ast;
pub mod converters;
pub mod grammar_structs;
