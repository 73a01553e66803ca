[package]
name = "hackernews"
version = "0.1.0"
edition = "2021"
publish = false

[dependencies]
lru = "=0.7.8"
reqwest = { version = "=0.11.27", default-features = false, features = ["json", "rustls-tls"] }
serde = { version = "1", features = ["derive"] }
serde_json = "1"
futures = "0.3"
tokio = { version = "1", features = ["macros", "rt-multi-thread"] }
axum = "=0.6.20"
chrono = { version = "0.4", features = ["serde"] }
thiserror = "1"
sauron = "0.61"
