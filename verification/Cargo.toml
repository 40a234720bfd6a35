[package]
name = "file_spliter"
version = "0.1.0"
edition = "2021"
publish = false

[dependencies]
html-escape = "*"
serde = { version = "*", features = ["derive"] }
serde_json = "*"
regex = "*"
reqwest = { version = "*", default-features = false, features = ["blocking"] }
