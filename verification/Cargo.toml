[package]
name = "composer_rs"
version = "0.1.0"
edition = "2021"
publish = false

[dependencies]
anyhow = "*"
async-walkdir = "*"
clap = { version = "*", features = ["derive"] }
dirs = "*"
futures = "*"
futures-lite = "*"
php-parser-rs = "*"
reqwest = { version = "*", default-features = false }
serde = { version = "*", features = ["derive"] }
serde_json = "*"
tokio = { version = "*", features = ["fs", "io-util", "macros", "rt-multi-thread"] }
xxhash-rust = { version = "*", features = ["xxh3"] }
zip-extract = "*"
