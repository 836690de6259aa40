[package]
name = "chicken"
version = "0.1.0"
edition = "2021"
publish = false

[dependencies]
camino = "1"
sha2 = "0.10"
hex = "0.4"
ed25519-dalek = { version = "2", features = ["rand_core"] }
rand = "0.8"
serde = { version = "1", features = ["derive"] }
serde_json = "1"
toml = "*"
toml_edit = "*"
thiserror = "*"
tokio = { version = "1", features = ["fs", "rt-multi-thread"] }
async-trait = "*"
