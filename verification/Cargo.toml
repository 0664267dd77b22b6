[package]
name = "htmlens"
version = "0.1.0"
edition = "2021"
publish = false

[dependencies]
anyhow = "=1.0.104"
html2md = "=0.2.17"
iref = "=3.2.2"
json-ld = { version = "=0.21.4", features = ["reqwest"] }
json-syntax = "=0.12.5"
once_cell = "=1.21.4"
openapiv3 = "=2.2.0"
rdf-types = "=0.22.5"
regex = "=1.13.1"
reqwest = { version = "=0.13.5", default-features = false }
scraper = "=0.27.0"
serde = { version = "=1.0.229", features = ["derive"] }
serde_json = "=1.0.151"
serde_yaml = "=0.9.34"
tokio = { version = "=1.53.2", features = ["macros", "rt-multi-thread"] }
url = "=2.5.8"
urlencoding = "=2.1.3"
uuid = { version = "=1.27.0", features = ["v4"] }
