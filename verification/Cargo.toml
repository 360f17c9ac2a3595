[package]
name = "did_i_break_it"
version = "0.1.0"
edition = "2021"
publish = false

[dependencies]
cargo_toml = "0.14"
clap = { version = "4", features = ["derive"] }
console = "0.15"
http = "0.2"
lazy_static = "1"
log = "0.4"
pretty_env_logger = "0.4"
rayon = "1"
reqwest = { version = "0.11", default-features = false, features = ["blocking", "rustls-tls"] }
semver = "1"
serde_json = "1"
url = "2"
