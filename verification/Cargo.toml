[package]
name = "gstdots"
version = "0.1.0"
edition = "2021"
publish = false

[dependencies]
actix = "*"
actix-files = "*"
actix-web = "*"
actix-web-actors = "*"
clap = { version = "*", features = ["derive"] }
dirs = "*"
notify = "*"
serde_json = "*"
tracing = "*"
tracing-subscriber = { version = "*", features = ["env-filter", "fmt"] }
