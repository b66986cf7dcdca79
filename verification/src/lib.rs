//! The front end of the LeBlanc compiler: character classification, tokens,
//! the language vocabulary, typed tokens, scope tracking and the first
//! passes that turn a token stream into typed, nested token trees.
pub mod text;
pub mod native_types;
pub mod rustblanc;
pub mod compiler;
pub mod compiler3;
