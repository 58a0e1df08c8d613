[package]
name = "lx_term"
version = "0.1.0"
edition = "2021"
publish = false

[dependencies]
anyhow = "=1.0.104"
chrono = "=0.4.45"
clap = { version = "=4.6.7", features = ["derive"] }
diesel = { version = "=2.3.14", features = ["sqlite"] }
libsqlite3-sys = { version = "=0.38.2", features = ["bundled"] }
dirs = "=7.0.0"
futures-lite = "=2.6.1"
hex = "=0.4.3"
instant = "=0.1.13"
log = "=0.4.35"
serde_json = "=1.0.154"
uuid = { version = "=1.29.0", features = ["v4"] }

[dev-dependencies]
tempfile = "=3.27.0"
