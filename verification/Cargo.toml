[package]
name = "harmonia"
version = "0.1.0"
edition = "2021"
publish = false

[dependencies]
semver = "1"
toml = "0.8"
serde = { version = "1", features = ["derive"] }
serde_json = "1"
serde_yaml = "0.9"
regex = "1"
anyhow = "1"
thiserror = "1"
clap = { version = "4", features = ["derive"] }
clap_complete = "4"
console = "0.15"
dialoguer = { version = "0.11", default-features = false }
rayon = "1"
tera = { version = "1", default-features = false }
reqwest = { version = "0.12", default-features = false, features = ["blocking", "json", "rustls-tls"] }
gix = { version = "0.66", default-features = false }
