[package]
name = "cw-entity"
version = "0.1.0"
edition = "2021"
publish = false

[dependencies]
cosmwasm-schema = "=1.5.11"
cosmwasm-std = "=1.5.11"
cw-orch = "0.24"
cw-storage-plus = "=1.2.0"
cw2 = "=1.1.2"
serde_json = "=1.0.154"
thiserror = "=1.0.69"
