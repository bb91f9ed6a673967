[package]
name = "commons"
version = "0.1.0"
edition = "2021"
publish = false

[dependencies]
rand = "0.8"
image = { version = "0.24", default-features = false, features = ["png"] }
num = "0.4"
serde = { version = "1", features = ["derive"] }
simdnoise = "3"
nalgebra = "0.32"
thiserror = "1"
