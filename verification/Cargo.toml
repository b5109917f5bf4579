[package]
name = "snbt"
version = "0.1.0"
edition = "2021"
publish = false

[dependencies]
thiserror = "1"

[dev-dependencies]
chumsky = { version = "0.9", default-features = false, features = ["std"] }
