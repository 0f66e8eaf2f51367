[package]
name = "rag_system_mini"
version = "0.1.0"
edition = "2021"
publish = false

[dependencies]
anyhow = "=1.0.104"
pdf-extract = "=0.12.1"
rig-core = { version = "=0.44.0", features = ["reqwest"] }
tokio = { version = "=1.53.2", features = ["macros", "rt-multi-thread"] }
