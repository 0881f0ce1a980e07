[package]
name = "furigana_html"
version = "0.1.0"
edition = "2021"
publish = false

[dependencies]
anyhow = "=1.0.104"
chrono = "=0.4.45"
fastly = "=0.5.1"
http = "=0.2.12"
kanji = "=1.1.0"
log = "=0.4.34"
log-fastly = "=0.1.3"
regex = "=1.13.1"
serde = { version = "=1.0.229", features = ["derive"] }
serde_json = "=1.0.154"
