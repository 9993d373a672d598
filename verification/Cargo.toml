[package]
name = "sheets_mcp"
version = "0.1.0"
edition = "2021"
publish = false

[dependencies]
calamine = "*"
umya-spreadsheet = "*"
reqwest = { version = "*", default-features = false, features = ["rustls-tls"] }
rmcp = { version = "*", features = ["server", "transport-io", "macros"] }
serde = { version = "1", features = ["derive"] }
serde_json = "1"
thiserror = "*"
tokio = { version = "1", features = ["rt-multi-thread", "macros", "process", "time", "io-std"] }
tracing = "0.1"
tracing-subscriber = "0.3"
