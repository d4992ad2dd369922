[package]
name = "altiumdb"
version = "0.1.0"
edition = "2021"
publish = false

[dependencies]
cfb = "*"
semver = "1"
serde = { version = "1", features = ["derive"] }
serde_json = "1"
rusqlite = { version = "*", features = ["bundled"] }
postgres = "*"
ureq = { version = "2", features = ["json"] }
usvg = "*"
resvg = "*"
tiny-skia = "*"
calamine = "*"
image = { version = "*", default-features = false, features = ["png"] }
