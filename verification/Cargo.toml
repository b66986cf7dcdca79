[package]
name = "leblanc"
version = "0.1.0"
edition = "2021"
publish = false

[dependencies]
fxhash = "0.2"
hex = "0.4"
glob = "0.3"
codespan-reporting = "*"
lalrpop-util = { version = "*", features = ["lexer"] }
serde = { version = "1", features = ["derive"] }
serde_json = "1"
parking_lot = "*"
