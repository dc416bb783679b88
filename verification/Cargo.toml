[package]
name = "i-wzu-auth"
version = "0.1.0"
edition = "2021"
publish = false

[dependencies]
hmac = "0.12"
md-5 = "0.10"
sha1 = "0.10"
hex = "0.4"
serde = { version = "1", features = ["derive"] }
serde_json = "1"
reqwest = { version = "0.12", default-features = false, features = ["blocking", "rustls-tls"] }
clap = { version = "4", features = ["derive", "env"] }
colored = "2"
dirs = "5"
rpassword = "7"
chrono = "0.4"
