[package]
name = "fediiverse"
version = "0.1.0"
edition = "2021"
publish = false

[dependencies]
anyhow = "=1.0.104"
image = { version = "=0.24.9", default-features = false }
rqrr = "=0.11.0"
bardecoder = { version = "=0.5.0", default-features = false }
ureq = { version = "=3.5.1", default-features = false }
