[package]
name = "casm_operand"
version = "0.1.0"
edition = "2021"
publish = false

[dependencies]
num-bigint = "0.4"
cairo-lang-utils = { version = "*", features = ["serde"] }
serde = { version = "1", features = ["derive"] }
serde_json = "1"
