[package]
name = "rookup"
version = "0.1.0"
edition = "2021"
publish = false

[dependencies]
anyhow = "=1.0.104"
clap = { version = "=4.6.7", features = ["derive"] }
clean-path = "=0.2.1"
dirs = "=7.0.0"
documented = "*"
field_access = "*"
flate2 = "=1.1.10"
quick-xml = "=0.42.0"
rustc-hash = "=2.1.3"
serde = { version = "=1.0.229", features = ["derive"] }
tar = "=0.4.46"
thiserror = "=2.0.21"
toml_edit = { version = "=0.25.17", features = ["serde"] }
ureq = "=3.5.0"
zip = { version = "=9.1.0", default-features = false, features = ["deflate"] }
