[package]
name = "product_checkout"
version = "0.1.0"
edition = "2021"
publish = false

[dependencies]
axum = "*"
reqwest = { version = "*", default-features = false, features = ["json"] }
serde = { version = "*", features = ["derive"] }
sqlx = { version = "*", default-features = false, features = ["runtime-tokio", "postgres"] }
tracing = "*"
