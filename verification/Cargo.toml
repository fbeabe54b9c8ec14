[package]
name = "aws-creds-scanner"
version = "0.1.0"
edition = "2021"
publish = false

[dependencies]
url = { version = "=2.5.8", features = ["serde"] }
chrono = { version = "=0.4.45", features = ["serde"] }
rand = "=0.8.8"
anyhow = "=1.0.104"
clap = { version = "=4.6.7", features = ["derive"] }
serde = { version = "=1.0.229", features = ["derive"] }
serde_json = "=1.0.154"
reqwest = { version = "=0.11.27", default-features = false, features = ["blocking", "json", "rustls-tls"] }
xmlrpc = { version = "=0.15.1", default-features = false, features = ["http"] }
tokio = { version = "=1.54.1", features = ["rt-multi-thread"] }
aws-config = { version = "=1.13.0", features = ["behavior-version-latest"] }
aws-sdk-sts = "=1.124.0"
chrono-humanize = "=0.2.3"
rayon = "=1.12.0"
tinytemplate = "=1.2.1"
