[package]
name = "echofs"
version = "1.6.0"
edition = "2021"
publish = false

[dependencies]
axum = "0.8"
chrono = "0.4"
clap = { version = "4", features = ["derive"] }
http-body-util = "0.1"
libc = "0.2"
mime = "0.3"
mime_guess = "2"
open = "5"
percent-encoding = "2"
qrcode = { version = "0.14", default-features = false }
serde = { version = "1", features = ["derive"] }
serde_json = "1"
tokio = { version = "1", features = ["full"] }
tokio-util = { version = "0.7", features = ["io"] }
tower-http = { version = "0.6", features = ["cors"] }
zip = { version = "*", default-features = false, features = ["deflate"] }
