[package]
name = "fmt_runner"
version = "0.1.0"
edition = "2021"
publish = false

[dependencies]
tree-sitter = "*"
clap = { version = "*", features = ["derive"] }
env_logger = "*"
log = "*"
serde = { version = "*", features = ["derive"] }
serde_yaml = "*"
thiserror = "*"

[dev-dependencies]
tree-sitter-json = "*"
