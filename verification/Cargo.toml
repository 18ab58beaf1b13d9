[package]
name = "a3mo"
version = "0.1.0"
edition = "2021"
publish = false

[dependencies]
custom_error = "=1.9.2"
indextree = { version = "=4.9.2", features = ["deser"] }
rayon = "=1.12.0"
reqwest = { version = "=0.13.5", features = ["blocking"] }
rusqlite = { version = "=0.40.2", features = ["bundled"] }
serde = { version = "=1.0.229", features = ["derive"] }
serde_json = "=1.0.154"
url = "=2.5.8"
walkdir = "=2.5.0"

[dev-dependencies]
easy_xxhash64 = "=1.1.6"
