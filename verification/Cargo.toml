[package]
name = "snippets"
version = "0.1.0"
edition = "2021"
publish = false

[dependencies]
arboard = { version = "*", default-features = false }
argh = "*"
candle-core = "*"
candle-nn = "*"
candle-transformers = "*"
ron = "*"
safetensors = "*"
serde = { version = "*", features = ["derive"] }
serde_json = "*"
tabled = "*"
thiserror = "*"
tokenizers = "*"
