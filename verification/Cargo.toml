[package]
name = "vrain"
version = "0.1.0"
edition = "2021"
publish = false

[dependencies]
anyhow = "*"
clap = { version = "*", features = ["derive"] }
fontdue = "*"
image = "*"
printpdf = "*"
serde = { version = "*", features = ["derive"] }
serde_json = "*"
zhconv = "*"
