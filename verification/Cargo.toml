[package]
name = "ml_battle_snake"
version = "0.1.0"
edition = "2021"
publish = false

[dependencies]
rand = "0.8"
colored = "2"
log = "0.4"
serde_json = "1"
tokio = { version = "1", features = ["macros", "rt"] }
