[package]
name = "gtkdownloadbar"
version = "0.1.0"
edition = "2021"
publish = false

[dependencies]
url = "2"
indicatif = "0.17"
console = "0.15"
anyhow = "1"
reqwest = { version = "0.11", default-features = false, features = ["blocking"] }
gtk = "0.17"
glib = "0.17"
gio = "0.17"
