[package]
name = "dsh_mobile"
version = "0.1.0"
edition = "2021"
publish = false

[dependencies]
jni = "0.21"
libc = "0.2"
lzma-rs = "0.3"
qrcode = { version = "0.14", default-features = false, features = ["svg"] }
rand = "0.8"
serde = { version = "1", features = ["derive"] }
serde_json = "1"
sha1 = "0.10"
tar = "0.4"
ureq = { version = "2", default-features = false }
zip = { version = "2", default-features = false, features = ["deflate"] }
