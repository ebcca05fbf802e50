[package]
name = "img_forest"
version = "0.1.0"
edition = "2021"
publish = false

[dependencies]
actix-cors = "*"
actix-session = { version = "*", features = ["cookie-session"] }
actix-web = { version = "*", default-features = false, features = ["cookies", "macros"] }
base64 = "*"
bincode = "1"
serde = { version = "*", features = ["derive"] }
