[package]
name = "mdslw"
version = "0.1.0"
edition = "2021"
publish = false

[dependencies]
pulldown-cmark = "*"
anyhow = "*"
clap = { version = "*", features = ["derive", "env"] }
clap_complete = "*"
log = "*"
rayon = "*"
serde = { version = "*", features = ["derive"] }
similar = "*"
toml = "*"
ignore = "*"
