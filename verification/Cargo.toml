[package]
name = "pore"
version = "0.1.0"
edition = "2021"
publish = false

[dependencies]
anyhow = "1"
atty = "0.2"
chrono = "0.4"
clap = { version = "4", features = ["derive"] }
console = "0.15"
dirs = "4"
filetime = "0.2"
fs2 = "0.4"
futures = { version = "0.3", features = ["thread-pool"] }
git2 = { version = "0.18", default-features = false }
indicatif = "0.17"
joinery = "2"
log = "0.4"
num_cpus = "1"
pathdiff = "0.2"
quick-xml = "0.22"
regex = "1"
reqwest = { version = "0.11", default-features = false, features = ["blocking", "rustls-tls"] }
serde = { version = "1", features = ["derive"] }
serde-xml-rs = "0.5"
serde_yaml = "0.8"
shellexpand = "2"
toml = "0.5"
tracing_chromium = "*"
tracing_facade = "*"
version-compare = "0.1"
