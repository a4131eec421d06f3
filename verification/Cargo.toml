[package]
name = "evm_ink_rs"
version = "0.1.0"
edition = "2021"
publish = false

[dependencies]
ethers = { version = "2", default-features = false }
reqwest = { version = "0.11", default-features = false, features = ["json"] }
serde_json = "1"
tokio = { version = "1", default-features = false, features = ["macros", "rt-multi-thread", "time"] }
serde = { version = "1", features = ["derive"] }
envy = "*"
dotenv = "*"
log = "*"
fern = { version = "*", features = ["colored"] }
colored = "*"
chrono = "*"
indoc = "*"
anyhow = "*"
url = "*"
