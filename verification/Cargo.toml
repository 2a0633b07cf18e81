[package]
name = "nicodl"
version = "0.1.0"
edition = "2021"
publish = false

[dependencies]
aes = "=0.9.3"
hmac = "=0.13.0"
sha1 = "=0.11.0"
reqwest = { version = "=0.13.5", default-features = false, features = ["cookies", "rustls", "stream", "form"] }
reqwest_cookie_store = "=0.10.0"
tokio = { version = "*", features = ["rt-multi-thread", "macros", "time", "sync"] }
futures-util = "*"
serde = { version = "*", features = ["derive"] }
serde_json = "*"
scraper = "*"
chrono = "*"
base32 = "=0.5.1"
sanitize-filename = "*"
url = "*"
ffmpeg-cli = "=0.1.0"

[dev-dependencies]
cbc = { version = "=0.2.1", features = ["alloc", "block-padding"] }
