[package]
name = "room237"
version = "0.1.0"
edition = "2021"
publish = false

[dependencies]
base64 = "0.22"
chrono = "0.4"
serde = { version = "1", features = ["derive"] }
serde_json = "1"
xattr = "1"
kamadak-exif = "0.5"
img_hash = "3"
image = "0.23"
ffmpeg-sidecar = { version = "2", default-features = false }
rayon = "1"
once_cell = "1"
log = "0.4"
