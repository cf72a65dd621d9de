[package]
name = "riku"
version = "0.1.0"
edition = "2021"
publish = false

[dependencies]
sha2 = "*"
dirs = "*"
git2 = "*"
serde = { version = "*", features = ["derive"] }
serde_json = "*"
clap = { version = "*", features = ["derive"] }
rustyline = "*"
tempfile = "*"
which = "*"
thiserror = "*"
regex = "*"
once_cell = "*"
