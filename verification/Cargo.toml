[package]
name = "jsonml"
version = "0.7.0"
edition = "2021"
publish = false

[dependencies]
html-escape = "0.2"
serde = { version = "1", features = ["derive"] }
serde_json = "1"
void = "1"

[dev-dependencies]
serde_test = "1"
