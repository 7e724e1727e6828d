[package]
name = "rosco_cli"
version = "0.1.0"
edition = "2021"
publish = false

[dependencies]
anyhow = "*"
clap = { version = "*", features = ["derive"] }
crossterm = "*"
include_dir = "*"
libc = "*"
serde = { version = "*", features = ["derive"] }
serialport = { version = "*", default-features = false }
toml = "*"
toml_edit = "*"

[dev-dependencies]
tempfile = "*"
