[package]
name = "openlake_scrub"
version = "0.1.0"
edition = "2021"
publish = false

[dependencies]
anyhow = "1"
aws-credential-types = "1"
aws-sigv4 = { version = "1", features = ["sign-http", "http1"] }
aws-smithy-runtime-api = { version = "1", features = ["client"] }
base64 = "0.22"
clap = { version = "4", features = ["derive"] }
cyper = "*"
http = "1"
percent-encoding = "2"
quick-xml = { version = "*", features = ["serialize"] }
serde = { version = "1", features = ["derive"] }
sha2 = "0.10"
