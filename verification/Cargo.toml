[package]
name = "wvm_resolver"
version = "0.1.0"
edition = "2021"
publish = false

[dependencies]
brotli = "*"
ethers-core = "*"
serde = { version = "*", features = ["derive"] }
serde_json = "*"
reqwest = { version = "*", features = ["json"] }
tokio = { version = "*", features = ["rt-multi-thread", "macros"] }
axum = "*"
anyhow = "*"
bytes = "*"
