[package]
name = "bundle_extractor"
version = "0.1.0"
edition = "2021"
publish = false

[dependencies]
regex = "*"
new_string_template = "*"
clap = { version = "*", features = ["derive"] }
ctrlc = "*"
glob = "*"
serde = { version = "*", features = ["derive"] }
serde_derive = "*"
serde_json = "*"
toml = "*"
unity_rs = "*"
wild = "*"
