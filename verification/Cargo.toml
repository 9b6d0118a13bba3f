[package]
name = "fullframe"
version = "0.1.0"
edition = "2021"
publish = false

[dependencies]
arboard = "=3.7.0"
base64 = "=0.23.1"
crossbeam-channel = "=0.5.17"
image = { version = "=0.25.10", default-features = false, features = ["bmp", "dds", "exr", "ff", "gif", "hdr", "ico", "jpeg", "png", "pnm", "qoi", "tga", "tiff", "webp"] }
openh264 = "=0.9.9"
serde = { version = "=1.0.229", features = ["derive"] }
serde_json = "=1.0.154"
x11rb = "=0.14.0"
