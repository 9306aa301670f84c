[package]
name = "dllup"
version = "0.1.0"
edition = "2021"
publish = false

[dependencies]
image = "0.24"
rexif = "0.7"
roxmltree = "*"
rayon = "1"
ureq = "2"
serde = { version = "1", features = ["derive"] }
serde_json = "1"
toml = "*"
shell-words = "1"
