[package]
name = "transcriber"
version = "0.1.0"
edition = "2021"
publish = false

[dependencies]
hound = "*"
actix-web = "*"
actix-cors = "*"
actix-multipart = "*"
futures-util = "*"
tokio = { version = "*", features = ["macros", "rt-multi-thread", "process", "io-util", "fs"] }
serde = { version = "*", features = ["derive"] }
serde_json = "*"
log = "*"
env_logger = "*"
