[package]
name = "ndn_certification_agent"
version = "0.1.0"
edition = "2021"
publish = false

[dependencies]
async-std = { version = "=1.13.2", features = ["attributes", "unstable"] }
async-trait = "=0.1.92"
base64 = "=0.13.1"
chrono = { version = "=0.4.45", features = ["serde"] }
ctrlc = "=3.5.2"
futures = "=0.3.34"
serde = { version = "=1.0.229", features = ["derive"] }
serde_json = "=1.0.154"
serde-xml-rs = "=0.4.1"
systemstat = "=0.1.12"
thiserror = "=1.0.69"
url = { version = "=2.5.8", features = ["serde"] }
