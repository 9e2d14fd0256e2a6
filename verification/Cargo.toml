[package]
name = "dvine_types"
version = "0.1.0"
edition = "2021"
publish = false

[dependencies]
hound = "3"
serde = { version = "1", features = ["derive"] }
thiserror = "2"
