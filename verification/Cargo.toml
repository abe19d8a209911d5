[package]
name = "segs"
version = "0.1.0"
edition = "2021"
publish = false

[dependencies]
aho-corasick = "1"
rand = "0.9"
chrono = { version = "0.4", default-features = false, features = ["clock", "std"] }
serde = { version = "1", features = ["derive"] }
serde_json = "1"
tempfile = "3"
argh = "0.1"
thiserror = "2"
