[package]
name = "yoyaku"
version = "0.1.0"
edition = "2021"
publish = false

[dependencies]
anyhow = "=1.0.104"
chrono = { version = "=0.4.45", default-features = false, features = ["alloc", "std"] }
clap = { version = "=4.6.7", features = ["derive"] }
http = "=1.5.0"
inventory = "=0.3.25"
reqwest = { version = "=0.12.28", default-features = false, features = ["blocking", "rustls-tls"] }
scraper = "=0.29.0"
serde = { version = "=1.0.229", features = ["derive"] }
serde_json = "=1.0.154"
topcoat = "=0.5.0"
topcoat-asset = "=0.5.0"
topcoat-core = "=0.5.0"
topcoat-core-macro = "=0.5.0"
topcoat-router = "=0.5.0"
topcoat-router-macro = "=0.5.0"
topcoat-runtime = { version = "=0.5.0", features = ["router"] }
topcoat-runtime-macro = "=0.5.0"
topcoat-view = "=0.5.0"
topcoat-view-macro = "=0.5.0"
unicode-normalization = "=0.1.26"
url = "=2.5.8"
worker = "=0.8.7"
