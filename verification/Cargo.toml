[package]
name = "sitegen"
version = "0.1.0"
edition = "2021"
publish = false

[dependencies]
anyhow = "1"
chrono = { version = "0.4", features = ["serde"] }
katex = "0.4"
minify-html = "*"
pulldown-cmark = "*"
serde = { version = "1", features = ["derive"] }
toml = "*"
upon = "*"
