[package]
name = "config"
version = "0.1.0"
edition = "2021"
publish = false

[dependencies]
nom = "7"
url = "2"
serde = { version = "1", features = ["derive"] }
serde_json = "1"
toml = "*"
yaml-rust2 = "*"
json5 = "*"
jsonc-parser = "*"
ron = "*"
rust-ini = "*"
serde_dhall = { version = "*", default-features = false }
gura = "*"
hocon = { version = "*", default-features = false }
