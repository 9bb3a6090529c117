[package]
name = "skoll"
version = "0.1.0"
edition = "2021"
publish = false

[dependencies]
fuzzy-matcher = "0.3"
shlex = "1"
xdg = "*"
freedesktop_entry_parser = "*"
serde = "1"
serde_derive = "1"
serde_json = "1"
