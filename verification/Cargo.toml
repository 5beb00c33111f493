[package]
name = "typstlab_typst"
version = "0.1.0"
edition = "2021"
publish = false

[dependencies]
html5ever = "=0.39.0"
markup5ever = "=0.39.0"
markup5ever_rcdom = "=0.39.0+unofficial"
markdown = "=1.0.0"
mdast_util_to_markdown = "=0.0.2"
url = "=2.5.8"
semver = "=1.0.28"
sha2 = "=0.10.9"
serde = { version = "=1.0.229", features = ["derive"] }
serde_json = "=1.0.154"
serde_yaml = "=0.9.34"
reqwest = { version = "=0.12.28", default-features = false, features = ["blocking", "rustls-tls"] }
walkdir = "=2.5.0"
flate2 = "=1.1.10"
tar = "=0.4.46"
zip = { version = "=9.2.2", default-features = false, features = ["deflate"] }
xz2 = "=0.1.7"
tempfile = "=3.27.0"
dirs = "=7.0.0"
which = "=8.0.6"
thiserror = "=2.0.21"
