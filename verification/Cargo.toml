[package]
name = "convr"
version = "0.1.0"
edition = "2021"
publish = false

[dependencies]
anyhow = "1"
clap = { version = "4", features = ["derive"] }
csv = "1"
glob = "0.3"
indicatif = "0.17"
infer = "*"
pulldown-cmark = "0.12"
quick-xml = "0.36"
rayon = "1"
serde_json = "1"
serde_yaml = "0.9"
toml = "0.8"
image = "0.25"
resvg = "0.45"
tiny-skia = "0.11"
ravif = { version = "0.11", default-features = false }
rgb = "0.8"
oxipng = { version = "9", default-features = false, features = ["parallel"] }
