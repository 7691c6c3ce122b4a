[package]
name = "djvulpes"
version = "0.1.0"
edition = "2021"
publish = false

[dependencies]
anyhow = "1"
clap = { version = "4", features = ["derive"] }
flate2 = "1"
thiserror = "2"

[dev-dependencies]
djvu-zp = "*"
