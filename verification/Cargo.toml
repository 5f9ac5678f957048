[package]
name = "termproof"
version = "0.3.3"
edition = "2021"
publish = false

[dependencies]
avt = "0.18"
chrono = "=0.4.45"
clap = { version = "=4.6.7", features = ["derive"] }
fancy-regex = "=0.14.0"
globset = "=0.4.21"
image = { version = "=0.25.10", default-features = false, features = ["png"] }
jsonschema = { version = "=0.60.2", default-features = false }
quick-junit = "=0.8.0"
regex = "=1.13.1"
serde = { version = "=1.0.229", features = ["derive"] }
serde_json = "=1.0.154"
serde_yaml = "=0.9.34"
sha2 = "=0.10.9"
tempfile = "=3.27.0"
thiserror = "=2.0.21"
unicode-normalization = "=0.1.26"
unicode-width = "=0.2.3"
vt100 = "=0.15.2"
