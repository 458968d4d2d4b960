[package]
name = "candle_writer"
version = "0.1.0"
edition = "2021"
publish = false

[dependencies]
azure_core = "*"
azure_data_tables = "*"
azure_storage = "*"
chrono = "*"
futures = "*"
tokio = { version = "*", features = ["rt-multi-thread", "macros", "time", "sync"] }
tokio-util = "*"
serde = { version = "*", features = ["derive"] }
async-trait = "*"
tracing = "*"
