pub mod byte_layout;
pub mod bytecode_generator;
pub mod cst;
pub mod lower_symbols;
pub mod symbol_table;
pub mod converted;
pub mod table_generator;
