[package]
name = "embedding_backfill"
version = "0.1.0"
edition = "2021"
publish = false

[dependencies]
anyhow = "1"
pgvector = { version = "*", features = ["postgres"] }
postgres = "*"
rust-bert = { version = "*", default-features = false }
tch = "*"
