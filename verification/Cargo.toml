[package]
name = "triarb"
version = "0.1.0"
edition = "2021"
publish = false

[dependencies]
ethers-core = "=2.0.14"
rand = "=0.8.8"
ethers-providers = { version = "=2.0.14", default-features = false, features = ["ws", "rustls"] }
ethers-signers = { version = "=2.0.14", default-features = false }
ethers-middleware = { version = "=2.0.14", default-features = false }
ethers-contract = { version = "=2.0.14", default-features = false, features = ["abigen", "providers"] }
tokio = { version = "=1.54.1", features = ["rt-multi-thread", "macros", "sync"] }
tokio-stream = "=0.1.19"
futures = "=0.3.34"
anyhow = "=1.0.104"
csv = "=1.4.0"
log = "=0.4.34"
url = "=2.5.8"
dotenv = "=0.15.0"
fern = { version = "=0.6.2", features = ["colored"] }
chrono = "=0.4.45"
serde_json = "=1.0.154"
