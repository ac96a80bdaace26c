[package]
name = "kcl_multilang"
version = "0.1.0"
edition = "2021"
publish = false

[dependencies]
base64 = "*"
quick-xml = "*"
clap = { version = "*", features = ["derive"] }
reqwest = { version = "*", default-features = false, features = ["blocking"] }
shell-escape = "*"
which = "*"
