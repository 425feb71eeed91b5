[package]
name = "ec2pick"
version = "0.1.0"
edition = "2021"
publish = false

[dependencies]
chrono = { version = "*", default-features = false, features = ["clock"] }
chrono-humanize = "*"
shell-escape = "*"
skim = { version = "*", default-features = false }
tokio = { version = "*", features = ["rt"] }
