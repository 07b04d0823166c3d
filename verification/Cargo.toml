[package]
name = "roborockutil"
version = "0.1.0"
edition = "2021"
publish = false

[dependencies]
aes = "0.8"
md5 = "0.7"
serde = { version = "1", features = ["derive"] }
serde_json = "1"
clap = "2"
