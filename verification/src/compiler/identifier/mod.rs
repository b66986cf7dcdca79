pub mod token;
pub mod typed_token;
pub mod token_identifier;
pub mod type_map;
pub mod func_matcher;
pub mod token_typer;
