[package]
name = "cms_notifs"
version = "0.1.0"
edition = "2021"
publish = false

[dependencies]
home = "*"
log = "*"
reqwest = { version = "*", default-features = false, features = ["blocking"] }
simplelog = "*"
web-view = "*"
webbrowser = "*"

[dev-dependencies]
serde_json = "*"
