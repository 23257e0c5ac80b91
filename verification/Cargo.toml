[package]
name = "pods"
version = "0.1.0"
edition = "2021"
publish = false

[dependencies]
indexmap = { version = "=2.14.2", features = ["serde"] }
futures = "=0.3.34"
names = { version = "=0.14.0", default-features = false }
serde = { version = "=1.0.229", features = ["derive"] }
serde_json = "=1.0.154"
anyhow = "=1.0.104"
log = "=0.4.35"
tokio = { version = "=1.54.1", features = ["fs", "io-util", "rt"] }
gettext-rs = "=0.7.7"
gtk4 = "=0.11.5"
glib = "=0.22.10"
gio = "=0.22.10"
libadwaita = "=0.9.2"
sourceview5 = "=0.11.2"
