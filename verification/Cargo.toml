[package]
name = "zabrze"
version = "0.1.0"
edition = "2021"
publish = false

[dependencies]
ansi_term = "*"
clap = { version = "*", features = ["derive"] }
glob = "*"
regex = "*"
serde = { version = "*", features = ["derive"] }
serde_yaml = "*"
shell-escape = "*"
thiserror = "*"
