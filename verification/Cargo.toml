[package]
name = "towavue_export"
version = "0.1.0"
edition = "2021"
publish = false

[dependencies]
crc32fast = "1"
flate2 = "1"
gif = "*"
png = "*"
image = { version = "0.25", default-features = false, features = ["png", "gif", "jpeg", "webp"] }
thiserror = "2"
ffmpeg-next = "*"
