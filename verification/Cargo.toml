[package]
name = "micropython-build"
version = "0.1.0"
edition = "2021"
publish = false

[dependencies]
anyhow = "1"
bindgen = "*"
blake3 = "1"
clap = { version = "4", features = ["derive"] }
proc-macro2 = "1"
proc-macro-crate = "3"
quote = "1"
regex = "1"
serde = { version = "1", features = ["derive"] }
syn = { version = "2", features = ["full", "visit", "visit-mut", "extra-traits"] }
tar = "0.4"
tempfile = "3"
thiserror = "2"
toml = "*"
walkdir = "2"
zstd = "*"
