[package]
name = "proxyia"
version = "0.1.0"
edition = "2021"
publish = false

[dependencies]
anyhow = "=1.0.104"
async-trait = "=0.1.92"
chrono = "=0.4.45"
dotenvy = "=0.15.7"
notify = "=6.1.1"
reqwest = { version = "=0.12.28", default-features = false, features = ["json"] }
serde = { version = "=1.0.229", features = ["derive"] }
serde_json = "=1.0.154"
sha2 = "=0.10.9"
sqlx = { version = "=0.8.6", default-features = false, features = ["runtime-tokio", "sqlite"] }
tokio = { version = "=1.54.1", features = ["full"] }
tree-sitter = "=0.23.2"
tree-sitter-rust = "=0.23.3"
tree-sitter-php = "=0.23.11"
tree-sitter-javascript = "=0.23.1"
tree-sitter-python = "=0.23.6"
tree-sitter-go = "=0.23.4"
tree-sitter-java = "=0.23.5"
tree-sitter-cpp = "=0.23.4"
tree-sitter-c-sharp = "=0.23.5"
tree-sitter-ruby = "=0.23.1"
walkdir = "=2.5.0"
