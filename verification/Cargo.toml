[package]
name = "aur-pkgbuilder"
version = "0.1.0"
edition = "2021"
publish = false

[dependencies]
similar = "2"
anyhow = "1"
thiserror = "2"
serde = { version = "1", features = ["derive"] }
serde_json = "1"
serde_yaml = "0.9"
json_comments = "0.2"
dirs = "6"
tokio = { version = "1", features = ["full"] }
async-channel = "2"
reqwest = { version = "0.12", default-features = false, features = ["json", "rustls-tls"] }
glib = "*"
gtk4 = "*"
libadwaita = "*"
