[package]
name = "jpellis_me"
version = "0.1.0"
edition = "2021"
publish = false

[dependencies]
pulldown-cmark = { version = "=0.13.6", default-features = false, features = ["html"] }
chrono = { version = "=0.4.45", default-features = false, features = ["std", "clock"] }
serde = { version = "=1.0.229", features = ["derive"] }
serde_json = "=1.0.154"
toml = "=1.2.1"
toml_edit = "*"
reqwest = { version = "=0.13.5", default-features = false, features = ["json"] }
tokio = { version = "=1.54.1", features = ["rt-multi-thread", "macros", "fs"] }
futures = "=0.3.34"
