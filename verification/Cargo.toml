[package]
name = "groovy-cli"
version = "0.1.0"
edition = "2021"
publish = false

[dependencies]
anyhow = "1"
clap = { version = "4", features = ["derive", "env"] }
ctrlc = "3"
dirs = "5"
lz4_flex = "0.11"
quick-xml = "0.37"
reqwest = { version = "0.12", default-features = false, features = ["blocking", "json", "rustls-tls"] }
serde = { version = "1", features = ["derive"] }
socket2 = "0.5"
spin_sleep = "1"
tempfile = "3"
toml = "0.8"
