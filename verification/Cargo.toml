[package]
name = "markdown_grid"
version = "0.1.0"
edition = "2021"
publish = false

[dependencies]
base64 = "=0.22.1"
dioxus = { version = "0.6", default-features = false, features = ["launch", "macro", "html", "hooks", "signals", "document", "logger"] }
serde_json = "1"
tokio = { version = "1", features = ["time"] }
tracing = "0.1"
