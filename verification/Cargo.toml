[package]
name = "penumbra"
version = "0.1.0"
edition = "2021"
publish = false

[dependencies]
serde = { version = "=1.0.229", features = ["derive"] }
serde_json = "=1.0.154"
bincode = "=1.3.3"
thiserror = "=2.0.21"
getrandom = "=0.2.17"
pyo3 = "=0.30.1"
