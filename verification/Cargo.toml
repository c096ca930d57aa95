[package]
name = "archive_assistant"
version = "0.1.0"
edition = "2021"
publish = false

[dependencies]
anyhow = "1"
bzip2 = "0.4"
chrono = "0.4"
clap = { version = "4", features = ["derive"] }
flate2 = "1"
glob = "0.3"
indicatif = "0.17"
libc = "0.2"
lopdf = "*"
rayon = "1"
rusqlite = { version = "0.31", features = ["bundled"] }
serde = { version = "1", features = ["derive"] }
sevenz-rust2 = "*"
tar = "0.4"
tempfile = "3"
toml = "0.8"
tracing = "0.1"
tracing-subscriber = { version = "0.3", features = ["env-filter"] }
unrar = "*"
walkdir = "2"
xz2 = "0.1"
zip = "2"
