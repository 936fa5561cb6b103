[package]
name = "bookdec"
version = "0.1.0"
edition = "2021"
publish = false

[dependencies]
aes = "=0.8.4"
anyhow = "=1.0.104"
base64 = "=0.13.1"
cbc = { version = "=0.1.2", features = ["alloc"] }
clap = { version = "=3.2.25", features = ["derive"] }
epub-builder = "=0.7.4"
fern = "=0.6.2"
flate2 = "=1.1.10"
hyper = { version = "=0.14.32", features = ["client", "http1", "tcp"] }
hyper-tls = "=0.5.0"
indicatif = { version = "=0.17.11", features = ["rayon"] }
log = "=0.4.34"
mime_guess = "=2.0.5"
once_cell = "=1.21.4"
rayon = "=1.12.0"
rusqlite = { version = "=0.29.0", features = ["bundled"] }
serde_json = "=1.0.151"
sha2 = "=0.10.9"
tokio = { version = "=1.53.2", features = ["rt-multi-thread", "macros", "sync"] }
walkdir = "=2.5.0"
