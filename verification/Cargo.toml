[package]
name = "better_deep_wiki"
version = "0.1.0"
edition = "2021"
publish = false

[dependencies]
tiktoken-rs = "0.5"
regex = "1"
tree-sitter = "0.20"
tree-sitter-rust = "0.20"
tree-sitter-javascript = "0.20"
tree-sitter-typescript = "0.20"
tree-sitter-java = "0.20"
qdrant-client = "1"
tokio = { version = "1", features = ["full"] }
serde = { version = "1", features = ["derive"] }
serde_json = "1"
reqwest = { version = "0.12", default-features = false, features = ["json", "stream"] }
axum = "0.7"
futures-util = "0.3"
tokio-stream = "0.1"
tower-http = { version = "0.5", features = ["cors"] }
tracing = "0.1"
tracing-subscriber = { version = "0.3", features = ["env-filter"] }
bincode = "2"
uuid = { version = "1", features = ["v4"] }
clap = { version = "4", features = ["derive"] }
dotenvy = "0.15"
async-trait = "0.1"
ignore = "0.4"
rayon = "1"
