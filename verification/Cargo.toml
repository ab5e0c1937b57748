[package]
name = "framebuffer_console"
version = "0.1.0"
edition = "2021"
publish = false

[dependencies]
noto-sans-mono-bitmap = { version = "=0.2.0", features = ["unicode-specials"] }
bootloader_api = "=0.11.17"
spin = "=0.12.3"
lazy_static = "=1.5.1"
