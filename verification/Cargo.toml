[package]
name = "labworks"
version = "0.1.0"
edition = "2021"
publish = false

[dependencies]
aes-gcm = "=0.10.3"
anyhow = "=1.0.104"
aws-config = "=1.13.0"
aws-sdk-s3 = "=1.157.0"
clap = { version = "=4.6.7", features = ["derive"] }
crossbeam-channel = "=0.5.17"
derive_more = { version = "=1.0.0", features = ["display", "from"] }
image = { version = "=0.25.10", default-features = false, features = ["png", "jpeg", "gif", "bmp", "tiff", "webp", "ico", "pnm", "qoi", "tga", "hdr", "dds", "ff", "rayon"] }
num_cpus = "=1.17.0"
rand = "=0.8.8"
rayon = "=1.12.0"
reqwest = { version = "=0.12.28", default-features = false, features = ["blocking", "rustls-tls"] }
rusqlite = { version = "=0.32.1", features = ["bundled"] }
sanitize-filename = "=0.5.0"
serde = { version = "=1.0.229", features = ["derive"] }
serde_json = "=1.0.154"
thiserror = "=1.0.69"
tokio = { version = "=1.54.1", features = ["rt-multi-thread", "macros", "fs", "sync"] }
url = "=2.5.8"
walkdir = "=2.5.0"
