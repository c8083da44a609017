[package]
name = "bring_cli"
version = "0.1.0"
edition = "2021"
publish = false

[dependencies]
chrono = "*"
clap = { version = "*", features = ["derive"] }
hyper = "*"
reqwest = { version = "*", default-features = false, features = ["blocking"] }
rpassword = "*"
serde_json = "*"
