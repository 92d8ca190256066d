[package]
name = "thumbs"
version = "0.1.0"
edition = "2021"
publish = false

[dependencies]
blake3 = "1"
lru = "0.12"
image = "0.24"
serde = { version = "1", features = ["derive"] }
warp = "0.3"
tokio = { version = "1", features = ["macros", "rt-multi-thread", "signal"] }
clap = { version = "4", features = ["derive"] }
log = "0.4"
simplelog = "0.12"
