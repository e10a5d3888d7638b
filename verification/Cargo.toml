[package]
name = "flash"
version = "0.1.0"
edition = "2021"
publish = false

[dependencies]
emojis = "*"
minify-html = "*"
lightningcss = "1.0.0-alpha.72"
clap = { version = "*", features = ["derive"] }
log = "*"
owo-colors = "*"
serde_json = "*"
tokio = { version = "*", features = ["rt-multi-thread", "macros", "sync"] }
