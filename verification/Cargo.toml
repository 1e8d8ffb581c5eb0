[package]
name = "cw404"
version = "0.1.0"
edition = "2021"
publish = false

[dependencies]
cosmwasm-std = "1.5"
cosmwasm-schema = "1.5"
cw20 = "1.1"
cw721 = "0.18"
cw-ownable = "0.5"
cw-storage-plus = "1.2"
cw-utils = "1.0"
schemars = "0.8"
serde = { version = "1", features = ["derive"] }
