[package]
name = "densky"
version = "0.1.0"
edition = "2021"
publish = false

[dependencies]
ahash = "0.8"
anstyle = "1"
clap = { version = "4", features = ["cargo"] }
indicatif = "0.17"
signal-hook = "0.3"
ureq = { version = "2", default-features = false }
