[package]
name = "clearhead"
version = "0.1.0"
edition = "2021"
publish = false

[dependencies]
oxigraph = { version = "0.5", default-features = false }
uuid = { version = "1", features = ["v4", "v5", "v7"] }
chrono = "0.4"
serde = { version = "1", features = ["derive"] }
serde_json = "1"
thiserror = "2"
anyhow = "1"
clap = { version = "4", features = ["derive"] }
tracing = "0.1"
tracing-subscriber = { version = "0.3", features = ["env-filter"] }
dirs = "6"
tokio = { version = "1", features = ["rt-multi-thread", "macros", "io-std"] }
tower-lsp-server = "*"
dashmap = "6"
tree-sitter = "*"
