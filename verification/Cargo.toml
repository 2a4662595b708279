[package]
name = "ldtstore_codegen"
version = "0.1.0"
edition = "2021"
publish = false

[dependencies]
sha2 = "*"
data-encoding = "*"
serde = { version = "*", features = ["derive"] }
serde_json = "*"
serde_yaml = "*"
serde_repr = "*"
indexmap = { version = "*", features = ["serde"] }
argh = "*"
