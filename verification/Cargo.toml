[package]
name = "cargo_tarpaulin"
version = "0.1.0"
edition = "2021"
publish = false

[dependencies]
regex = "=1.13.1"
glob = "=0.3.4"
serde = { version = "=1.0.229", features = ["derive"] }
serde_json = "=1.0.154"
clap = { version = "=4.6.7", features = ["derive"] }
syn = { version = "=3.0.9", features = ["full"] }
proc-macro2 = { version = "=1.0.107", features = ["span-locations"] }
