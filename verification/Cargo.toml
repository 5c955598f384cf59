[package]
name = "rushdrop"
version = "0.1.0"
edition = "2021"
publish = false

[dependencies]
anyhow = "1"
askama = "*"
axum = "0.8"
axum-server = { version = "*", features = ["tls-rustls"] }
blake3 = "1"
clap = { version = "4", features = ["derive"] }
dirs = "*"
dunce = "1"
enable-ansi-support = "*"
futures = "0.3"
image = { version = "0.25", default-features = false, features = ["bmp", "gif", "jpeg", "png", "webp", "tiff", "ico", "pnm", "tga", "rayon"] }
infer = "*"
libheif-rs = "*"
local-ip-address = "*"
mime_guess = "2"
multer = "3"
qr2term = "*"
rcgen = "0.14"
sanitize-filename = "*"
serde_json = "1"
supports-color = "*"
thiserror = "2"
tokio = { version = "1", features = ["full"] }
tower-http = { version = "0.6", features = ["fs", "timeout"] }
tracing = "0.1"
tracing-appender = "0.2"
tracing-subscriber = { version = "0.3", features = ["env-filter"] }
