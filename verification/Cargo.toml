[package]
name = "embedanything"
version = "0.1.0"
edition = "2021"
publish = false

[dependencies]
futures = "0.3"
hf-hub = { version = "0.4", default-features = false, features = ["ureq"] }
once_cell = "1"
rustler = "0.36"
tokenizers = "0.21"
tokio = { version = "1", features = ["rt-multi-thread", "sync"] }
