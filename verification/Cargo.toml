[package]
name = "jackbox_custom_content"
version = "2.0.0"
edition = "2021"
publish = false

[dependencies]
serde = { version = "=1.0.229", features = ["derive"] }
serde_json = "=1.0.154"
open = "=5.4.5"
regex = "1"
serde-xml-rs = "0.6"
