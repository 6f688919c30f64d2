[package]
name = "cobu"
version = "0.1.0"
edition = "2021"
publish = false

[dependencies]
anyhow = "*"
cargo_metadata = "*"
clap = { version = "*", features = ["derive"] }
proc-macro2 = { version = "*", features = ["span-locations"] }
quote = "*"
serde_json = "*"
syn = { version = "*", features = ["full", "visit"] }
