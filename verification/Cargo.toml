[package]
name = "doc_router"
version = "0.1.0"
edition = "2021"
publish = false

[dependencies]
anyhow = "=1.0.104"
base64 = "=0.22.1"
clap = { version = "=4.6.7", features = ["derive", "env"] }
lopdf = { version = "0.44", features = ["rayon"] }
pdf-inspector = "~1.17"
pyo3 = { version = "=0.29.3", features = ["abi3-py39"] }
pythonize = "=0.29.0"
serde = { version = "=1.0.229", features = ["derive"] }
serde_json = "=1.0.154"
thiserror = "=2.0.21"
ureq = { version = "=3.5.1", features = ["json"] }
