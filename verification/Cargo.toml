[package]
name = "compiler_core"
version = "0.1.0"
edition = "2021"
publish = false

[dependencies]
base16 = "*"
serde = { version = "1", features = ["derive"] }

[dev-dependencies]
toml = "*"
