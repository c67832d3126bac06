[package]
name = "card_combat"
version = "0.1.0"
edition = "2021"
publish = false

[dependencies]
dotenv = "0.15"
poise = "0.5"
rand = "0.8"
serde = { version = "1", features = ["derive"] }
serde_json = "1"
tokio = { version = "1", features = ["macros", "rt-multi-thread", "sync", "time"] }
