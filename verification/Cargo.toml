[package]
name = "pow_ledger"
version = "0.1.0"
edition = "2021"
publish = false

[dependencies]
actix-web = { version = "4", default-features = false, features = ["macros"] }
blake2 = "0.10"
dotenv = "0.15"
env_logger = "0.11"
hex = "0.4"
secp256k1 = "0.29"
serde = { version = "1", features = ["derive"] }
serde_json = "1"
sqlx = { version = "0.7", default-features = false, features = ["postgres", "runtime-tokio"] }
