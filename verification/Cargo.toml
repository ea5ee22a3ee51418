[package]
name = "anki_words_importer"
version = "0.1.0"
edition = "2021"
publish = false

[dependencies]
anyhow = "1"
chrono = "0.4"
clap = { version = "4", features = ["derive"] }
directories = "5"
env_logger = "0.11"
futures = "0.3"
inquire = "0.7"
itertools = "0.13"
jsonwebtoken = "9"
log = "0.4"
maud = "0.26"
regex = "1"
reqwest = { version = "0.12", default-features = false, features = ["json", "rustls-tls"] }
serde = { version = "1", features = ["derive"] }
serde_json = "1"
tokio = { version = "1", features = ["rt-multi-thread", "macros", "fs", "io-util", "time"] }
