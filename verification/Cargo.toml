[package]
name = "spin-deps"
version = "0.1.0"
edition = "2021"
publish = false

[dependencies]
anyhow = "1"
clap = { version = "4", features = ["derive"] }
semver = "1"
tokio = { version = "1", features = ["fs"] }
toml_edit = "0.22"
url = "2"
wasm-pkg-client = { version = "0.16", default-features = false }
wit-parser = "0.220"
