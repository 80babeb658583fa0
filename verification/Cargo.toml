[package]
name = "indicator_engine"
version = "0.1.0"
edition = "2021"
publish = false

[dependencies]
chrono = "0.4"
serde_json = "1"
rdkafka = "0.36"
pyo3 = { version = "0.21", features = ["extension-module", "abi3-py38"] }
pyo3-asyncio-0-21 = { version = "0.21", features = ["tokio-runtime"] }

[dev-dependencies]
ta = "0.5"
