[package]
name = "eqgui"
version = "0.1.0"
edition = "2021"
publish = false

[dependencies]
zip = { version = "=9.2.2", default-features = false, features = ["deflate", "time"] }
base64 = "=0.23.1"
resvg = { version = "=0.49.0", default-features = false, features = ["text", "system-fonts"] }
fontdb = "=0.24.0"
typst = "=0.14.2"
typst-svg = "=0.14.2"
typst-kit = { version = "=0.14.2", default-features = false, features = ["fonts"] }
comemo = "=0.5.1"
