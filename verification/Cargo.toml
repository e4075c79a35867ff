[package]
name = "postgres_wire_proxy"
version = "0.1.0"
edition = "2021"
publish = false

[dependencies]
md5 = "*"
owo-colors = "*"
time = { version = "*", features = ["formatting"] }
anyhow = "*"
clap = { version = "*", features = ["derive"] }
tokio = { version = "*", features = ["full"] }
tokio-rustls = "*"
rustls = "*"
rustls-pemfile = "*"
tracing = "*"
tracing-subscriber = { version = "*", features = ["env-filter"] }
bytes = "*"

[dev-dependencies]
hex = "*"
