[package]
name = "kv_gateway"
version = "0.1.0"
edition = "2021"
publish = false

[dependencies]
actix-web = { version = "*", default-features = false, features = ["macros"] }
async-trait = "*"
redis = { version = "*", default-features = false, features = ["tokio-comp"] }
serde = { version = "*", features = ["derive"] }
thiserror = "*"
