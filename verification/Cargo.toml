[package]
name = "kanttiinit"
version = "0.1.0"
edition = "2021"
publish = false

[dependencies]
chrono = "0.4"
clap = { version = "4", features = ["derive"] }
color-print = "0.3"
serde = { version = "1", features = ["derive"] }
toml = "0.8"
ureq = { version = "2", features = ["json"] }
xdg = "2"
