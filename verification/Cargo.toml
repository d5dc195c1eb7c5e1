[package]
name = "log_sentinel"
version = "0.1.0"
edition = "2021"
publish = false

[dependencies]
actix-web = "*"
chrono = "*"
clap = { version = "*", features = ["derive"] }
dotenv = "*"
log = "*"
rayon = "*"
regex = "*"
serde = { version = "*", features = ["derive"] }
serde_json = "*"
tokio = { version = "*", features = ["net", "io-util", "rt-multi-thread", "macros"] }
uuid = { version = "*", features = ["v4"] }
