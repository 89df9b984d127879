[package]
name = "igarchive"
version = "0.1.0"
edition = "2021"
publish = false

[dependencies]
chrono = "0.4"
colored = "2"
ctrlc = "3"
hhmmss = "0.1"
prettytable-rs = { version = "0.10", default-features = false }
serde = { version = "1", features = ["derive"] }
serde_json = "1"
text_io = "0.1"
