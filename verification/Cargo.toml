[package]
name = "labworks"
version = "0.1.0"
edition = "2021"
publish = false

[dependencies]
serde_json = "1"
serde = { version = "1", features = ["derive"] }
rand = "0.8"
rayon = "1"
aes-gcm = "0.10"
rusqlite = { version = "0.32", features = ["bundled"] }
thiserror = "1"
anyhow = "1"
clap = { version = "4", features = ["derive"] }
config = { version = "0.14", default-features = false }
tokio = { version = "1", features = ["full"] }
async-std = "1"
futures = "0.3"
reqwest = { version = "0.12", default-features = false }
image = { version = "0.25", default-features = false, features = ["png", "jpeg"] }
walkdir = "2"
num_cpus = "1"
crossbeam = "0.8"
derive_more = "0.99"
aws-config = "1"
aws-sdk-s3 = "1"
