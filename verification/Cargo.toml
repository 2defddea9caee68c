[package]
name = "familiar"
version = "0.1.0"
edition = "2021"
publish = false

[dependencies]
petgraph = "=0.6.5"
sha2 = "=0.10.9"
uuid = { version = "=1.29.0", features = ["v4"] }
rand = "=0.8.8"
argon2 = "=0.5.3"
serde = { version = "=1.0.229", features = ["derive"] }
serde_json = "=1.0.154"
syn = { version = "=2.0.119", features = ["full"] }
walkdir = "=2.5.0"
tabled = "=0.22.0"
fuzzy-matcher = "=0.3.7"
chrono = "=0.4.45"
jsonschema = { version = "=0.60.2", default-features = false }
simd-json = "=0.19.0"
include_dir = "=0.7.4"
proc-macro2 = "=1.0.107"
