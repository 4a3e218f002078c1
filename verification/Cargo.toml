[package]
name = "dol"
version = "0.1.0"
edition = "2021"
publish = false

[dependencies]
blake3 = { version = "=1.8.7", default-features = false, features = ["pure"] }
serde = { version = "=1.0.229", features = ["derive"] }
postcard = { version = "=1.1.3", default-features = false, features = ["alloc"] }
