[package]
name = "isis"
version = "0.1.0"
edition = "2021"
publish = false

[dependencies]
anyhow = "*"
lockfree = "*"
pulseaudio = "*"
soundtouch = "*"
