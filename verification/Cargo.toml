[package]
name = "weeb_helper"
version = "0.1.0"
edition = "2021"
publish = false

[dependencies]
anitomy = "=0.2.0"
clap = { version = "=4.6.7", features = ["derive"] }
daemonize = "=0.5.0"
quick-xml = "=0.42.0"
reqwest = { version = "=0.13.5", default-features = false, features = ["blocking", "form"] }
serde = { version = "=1.0.229", features = ["derive"] }
serde_json = "=1.0.151"
