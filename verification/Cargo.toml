[package]
name = "inf"
version = "0.1.0"
edition = "2021"
publish = false

[dependencies]
anyhow = "1"
clap = { version = "4", features = ["derive"] }
command-group = { version = "5", features = ["with-tokio"] }
libc = "0.2"
nix = { version = "0.29", features = ["signal", "term", "process"] }
tokio = { version = "1", features = ["full"] }
watchexec = "8"
