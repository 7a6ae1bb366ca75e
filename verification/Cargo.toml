[package]
name = "deb_assets"
version = "0.1.0"
edition = "2021"
publish = false

[dependencies]
regex = "1"
cargo_toml = "0.20"
glob = "0.3"
log = "0.4"
rayon = "1"
