[package]
name = "zkml"
version = "0.1.0"
edition = "2021"
publish = false

[dependencies]
sha2 = "=0.10.9"
serde = { version = "=1.0.229", features = ["derive"] }
serde_json = "=1.0.154"
clap = { version = "=4.6.7", features = ["derive"] }
prost = "=0.13.5"
thiserror = "=2.0.21"

[dev-dependencies]
ark-bn254 = "0.5"
ark-ff = "0.5"
