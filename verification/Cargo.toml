[package]
name = "lightqos"
version = "0.1.0"
edition = "2021"
publish = false

[dependencies]
uuid = { version = "1", features = ["v4"] }
rand = "0.8"
serde = { version = "1", features = ["derive"] }
serde_json = "1"
clap = { version = "4", features = ["derive"] }
nalgebra = "0.32"
num-complex = "0.4"
async-trait = "0.1"
thiserror = "1"
