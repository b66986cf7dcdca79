pub mod symbols;
pub mod lang;
pub mod identifier;
pub mod syntax_rules;
pub mod import;
pub mod partial;
pub mod parser;
pub mod grammar;
pub mod token_stack_generator;
pub mod tokenizer;
