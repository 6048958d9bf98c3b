[package]
name = "image_proxy"
version = "0.1.0"
edition = "2021"
publish = false

[dependencies]
actix-web = { version = "4", default-features = false, features = ["macros"] }
actix-files = "0.6"
actix-cors = "0.7"
dotenv = "0.15"
reqwest = { version = "0.12", default-features = false }
