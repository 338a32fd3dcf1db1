[package]
name = "seeker"
version = "0.1.0"
edition = "2021"
publish = false

[dependencies]
anyhow = "1"
async-std = "1"
async-std-resolver = "0.22"
async-trait = "0.1"
futures = "0.3"
rusqlite = { version = "0.29", features = ["bundled"] }
tracing = "0.1"
trust-dns-proto = "0.22"
