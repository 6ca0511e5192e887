[package]
name = "maskforge"
version = "0.1.0"
edition = "2021"
publish = false

[dependencies]
rustc-hash = "2"
blake3 = { version = "1", features = ["pure"] }
bincode = "2"
serde = { version = "1", features = ["derive"] }
serde_json = "1"
thiserror = "2"
tokenizers = { version = "0.21", default-features = false, features = ["onig", "http"] }
hf-hub = { version = "0.4", default-features = false, features = ["ureq"] }
