[package]
name = "zita_auth"
version = "0.1.0"
edition = "2021"
publish = false

[dependencies]
argon2 = "=0.6.0"
jsonwebtoken = { version = "=11.1.0", features = ["rust_crypto"] }
deadpool-postgres = "=0.14.2"
tokio = { version = "=1.53.2", features = ["rt", "macros"] }

[dev-dependencies]
ed25519-dalek = { version = "=3.0.0", features = ["pkcs8", "pem"] }
