[package]
name = "archman"
version = "0.1.0"
edition = "2021"
publish = false

[dependencies]
ansi_term = "0.12"
anstyle = "1"
anyhow = "1"
clap = { version = "4", features = ["derive"] }
clap_complete = "4"
gethostname = "*"
is-terminal = "0.4"
regex = "1"
serde = { version = "1", features = ["derive"] }
thiserror = "1"
toml = "*"
