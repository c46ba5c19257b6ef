[package]
name = "tpt_abyss"
version = "0.1.0"
edition = "2021"
publish = false

[dependencies]
candle-core = "0.8"
candle-nn = "0.8"
tokenizers = "*"
redb = "2"
serde = { version = "1", features = ["derive"] }
serde_json = "1"
clap = { version = "4", features = ["derive", "env"] }
rand = "0.8"
memmap2 = "0.9"
thiserror = "1"
tracing-subscriber = { version = "0.3", features = ["env-filter"] }
