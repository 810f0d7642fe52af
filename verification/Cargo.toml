[package]
name = "image_favourites"
version = "0.1.0"
edition = "2021"
publish = false

[dependencies]
futures = "*"
log = "*"
serde = { version = "*", features = ["derive"] }
sqlx = { version = "*", default-features = false, features = ["sqlite", "runtime-tokio"] }
