[package]
name = "yantrikdb_explorer"
version = "0.1.0"
edition = "2021"
publish = false

[dependencies]
rand = "0.9"
serde_json = "1"
serde = { version = "1", features = ["derive"] }
rusqlite = { version = "0.32", features = ["bundled", "backup"] }
ratatui = "0.29"
pyo3 = { version = "0.23", features = ["abi3-py39", "extension-module"] }
