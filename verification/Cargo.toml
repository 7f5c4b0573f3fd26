[package]
name = "sieve_language_server"
version = "0.1.0"
edition = "2021"
publish = false

[dependencies]
dashmap = "5"
regex = "1"
ropey = "1"
serde = { version = "1", features = ["derive"] }
serde_json = "1"
tokio = { version = "1", features = ["io-std", "macros", "rt-multi-thread", "sync"] }
tower-lsp = "0.20"
tracing = "0.1"
tracing-subscriber = "0.3"
url = "2"
