[package]
name = "push_relay"
version = "0.1.0"
edition = "2021"
publish = false

[dependencies]
axum = "=0.8.9"
dotenv = "=0.15.0"
serde = { version = "=1.0.229", features = ["derive"] }
takecell = "=0.1.1"
teloxide = { version = "=0.17.0", default-features = false, features = ["rustls"] }
tokio = { version = "=1.53.2", features = ["macros", "rt-multi-thread", "net", "sync"] }
