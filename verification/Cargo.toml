[package]
name = "fam_core_lib"
version = "0.1.0"
edition = "2021"
publish = false

[dependencies]
argon2 = "0.5"
ed25519-dalek = { version = "2", features = ["rand_core"] }
rand = "0.8"
rusqlite = { version = "0.32", features = ["bundled-sqlcipher"] }
serde = { version = "1", features = ["derive"] }
serde_json = "1"
thiserror = "1"
