[package]
name = "ftc_insights"
version = "0.1.0"
edition = "2021"
publish = false

[dependencies]
serde = { version = "1", features = ["derive"] }
serde_json = "1"
rusqlite = "0.28"
tokio-rusqlite = "0.3"
tokio = { version = "1", features = ["full"] }
nalgebra = "0.31"
reqwest = { version = "0.11", default-features = false, features = ["blocking", "rustls-tls"] }
tide = "0.16"
tide-governor = "1"
clokwerk = "0.4"
