[package]
name = "zetch"
version = "0.1.0"
edition = "2021"
publish = false

[dependencies]
serde = { version = "=1.0.229", features = ["derive"] }
serde_json = "=1.0.151"
toml = "=1.1.7"
sha2 = "=0.11.0"
minijinja = { version = "=2.24.0", features = ["custom_syntax", "loader"] }
minijinja-contrib = "=2.24.0"
ignore = "=0.4.33"
shell-words = "=1.1.1"
clap = { version = "=4.6.7", features = ["derive"] }
