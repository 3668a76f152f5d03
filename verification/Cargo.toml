[package]
name = "overlay_core"
version = "0.1.0"
edition = "2021"
publish = false

[dependencies]
serde_json = "*"
sysinfo = "*"

[dev-dependencies]
hex_color = "*"
