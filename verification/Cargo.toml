[package]
name = "meilisearch_importer"
version = "0.2.4"
edition = "2021"
publish = false

[dependencies]
actix-web = "4"
anyhow = "1"
byte-unit = "5"
bzip2 = "0.4"
clap = { version = "4", features = ["derive"] }
env_logger = "0.11"
flate2 = "1"
futures = "0.3"
log = "0.4"
reqwest = { version = "0.12", default-features = false, features = ["stream"] }
serde = { version = "1", features = ["derive"] }
serde_json = "1"
tokio = { version = "1", features = ["macros", "rt-multi-thread", "time"] }
xz2 = "0.1"
zstd = "0.13"
