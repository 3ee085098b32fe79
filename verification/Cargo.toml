[package]
name = "ufrume"
version = "1.0.0"
edition = "2021"
publish = false

[dependencies]
clap = { version = "=4.6.7", features = ["derive"] }
console = "=0.16.6"
dirs = "=7.0.0"
ebur128 = "=0.1.11"
indicatif = "=0.18.6"
lofty = "=0.25.5"
rayon = "=1.12.0"
reqwest = { version = "=0.12.28", default-features = false, features = ["blocking", "json", "rustls-tls"] }
serde = { version = "=1.0.229", features = ["derive"] }
symphonia = { version = "=0.6.1", features = ["all"] }
tracing = "=0.1.44"
tracing-subscriber = { version = "=0.3.23", features = ["env-filter"] }
walkdir = "=2.5.0"
