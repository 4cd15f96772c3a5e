[package]
name = "qr_video_extractor"
version = "0.1.0"
edition = "2021"
publish = false

[dependencies]
base64 = "0.22"
urlencoding = "2.1"
md5 = "0.7"
sha1 = "0.10"
sha2 = "0.10"
crc32fast = "1"
fnv = "1"
serde = { version = "1", features = ["derive"] }
serde_json = "1"
chrono = "0.4"
anyhow = "1"
clap = { version = "4", features = ["derive"] }
ctrlc = "3"
crossterm = "0.28"
ratatui = "0.28"
num_cpus = "1"
rayon = "1"
image = { version = "0.25", default-features = false, features = ["png"] }
rqrr = "*"
quircs = "*"
ffmpeg-next = "*"
