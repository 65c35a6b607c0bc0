[package]
name = "hitsz_info_fetcher"
version = "0.1.0"
edition = "2021"
publish = false

[dependencies]
aes = "=0.9.4"
anyhow = "=1.0.104"
base64 = "=0.22.1"
cbc = "=0.2.1"
chromiumoxide = "=0.9.1"
chrono = "=0.4.45"
clap = { version = "=4.6.7", features = ["derive"] }
futures-util = "=0.3.34"
rand = "=0.10.3"
reqwest = { version = "=0.13.5", features = ["blocking", "cookies", "form"] }
reqwest_cookie_store = "=0.10.0"
rpassword = "=7.5.4"
scraper = "=0.29.0"
serde = { version = "=1.0.229", features = ["derive"] }
serde_json = "=1.0.154"
tokio = { version = "=1.54.1", features = ["full"] }
url = "=2.5.8"
