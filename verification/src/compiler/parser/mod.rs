pub mod ast;
pub mod ast_structs;
pub mod parse_structs;
pub mod generator;
pub mod rules;
pub mod function_sorter;
pub mod import_manager;
