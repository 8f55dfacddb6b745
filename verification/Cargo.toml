[package]
name = "gohome"
version = "0.1.0"
edition = "2021"
publish = false

[dependencies]
chrono = { version = "=0.4.45", features = ["serde"] }
regex = "=1.13.1"
url = "=2.5.8"
url-escape = "=0.1.2"
urlencoding = "=2.1.3"
handlebars = "=6.4.4"
warp = { version = "=0.4.3", features = ["server"] }
tokio = { version = "=1.54.1", features = ["full"] }
rusqlite = { version = "=0.41.0", features = ["bundled", "chrono"] }
serde = { version = "=1.0.229", features = ["derive"] }
serde_json = "=1.0.154"
serde-jsonlines = "=0.7.0"
csrf = "=0.5.0"
rand = "=0.9.5"
tracing = "=0.1.44"
tracing-subscriber = { version = "=0.3.23", features = ["env-filter"] }
clap = { version = "=4.6.7", features = ["derive", "env"] }
