[package]
name = "diagnostic_ls"
version = "0.1.0"
edition = "2021"
publish = false

[dependencies]
ropey = "1"
chumsky = "0.8"
tower-lsp = "0.14"
tokio = { version = "1", features = ["io-std", "macros", "rt-multi-thread", "sync"] }
env_logger = "0.9"
serde_json = "1"
