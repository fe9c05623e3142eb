[package]
name = "scriba"
version = "0.1.0"
edition = "2021"
publish = false

[dependencies]
anyhow = "*"
clap = { version = "*", features = ["derive"] }
clap_complete = "*"
config = { version = "*", default-features = false, features = ["toml"] }
libc = "*"
serde = { version = "*", features = ["derive"] }
tempfile = "*"
tracing = "*"
tracing-appender = "*"
tracing-subscriber = { version = "*", features = ["env-filter"] }
zip = { version = "*", default-features = false, features = ["deflate"] }
