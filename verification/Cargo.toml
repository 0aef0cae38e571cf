[package]
name = "continue-transcripts"
version = "0.1.0"
edition = "2021"
publish = false

[dependencies]
chrono = "0.4"
clap = { version = "4", features = ["derive"] }
glob = "0.3"
html-escape = "0.2"
pulldown-cmark = "0.13"
rayon = "1"
serde = { version = "1", features = ["derive"] }
serde_json = "1"
syntect = "5"
