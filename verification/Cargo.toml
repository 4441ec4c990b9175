[package]
name = "rpk"
version = "0.1.0"
edition = "2021"
publish = false

[dependencies]
anyhow = "1"
clap = { version = "4", features = ["derive"] }
emojis = "0.6"
flate2 = "1"
fmutex = "0.1"
serde = { version = "1", features = ["derive"] }
serde_json = "1"
tar = "0.4"
toml = "0.8"
toml_edit = "0.22"
ureq = { version = "2", default-features = false, features = ["json"] }
xdg = "2"
zip = { version = "2", default-features = false, features = ["deflate"] }
