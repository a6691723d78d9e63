[package]
name = "infr"
version = "0.1.0"
edition = "2021"
publish = false

[dependencies]
anyhow = "1"
ash = { version = "0.38", default-features = false, features = ["loaded", "std", "debug"] }
bytemuck = "1"
dirs = "*"
half = "2"
llguidance = "*"
rayon = "1"
serde = { version = "1", features = ["derive"] }
serde_json = "1"
thiserror = "*"
tokenizers = { version = "0.20", default-features = false, features = ["onig"] }
toktrie_hf_tokenizers = "*"
