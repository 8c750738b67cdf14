[package]
name = "gallsh"
version = "0.1.0"
edition = "2021"
publish = false

[dependencies]
rand = "0.8"
regex = "1"
palette_extract = "*"
clap = { version = "4", features = ["derive"] }
clap-num = "1"
serde = { version = "1", features = ["derive"] }
serde_json = "1"
walkdir = "2"
thumbnailer = "*"
mime = "0.3"
image = "0.24"
gtk4 = "*"

[dev-dependencies]
chrono = "0.4"
