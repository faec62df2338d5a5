[package]
name = "tit"
version = "0.2.0"
edition = "2021"
publish = false

[dependencies]
anyhow = "1"
arboard = { version = "3", default-features = false }
base64 = "0.22"
chrono = "0.4"
clap = { version = "4", features = ["derive"] }
clap_complete = "4"
crossterm = "0.28"
hmac = "0.12"
html-escape = "0.2"
ipnet = "2"
md5 = "0.7"
rand = "0.8"
ratatui = "0.29"
regex = "1"
serde_json = "1"
serde_yaml = "0.9"
sha2 = "0.10"
tui-textarea = "0.7"
url = "2"
urlencoding = "2"
uuid = { version = "1", features = ["v4"] }
