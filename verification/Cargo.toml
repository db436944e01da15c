[package]
name = "mysql_samp"
version = "0.1.0"
edition = "2021"
publish = false

[dependencies]
argon2 = { version = "*", features = ["std"] }
mysql = { version = "*", default-features = false, features = ["default-rust", "rustls-tls-ring"] }
samp = "*"
