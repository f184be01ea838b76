[package]
name = "pypes"
version = "0.1.0"
edition = "2021"
publish = false

[dependencies]
pickledb = "0.5"
serde = { version = "1", features = ["derive"] }
serde_json = { version = "1", features = ["raw_value"] }
clap = { version = "4", features = ["derive"] }
daemonize = "0.5"
directories = "5"
libc = "0.2"
tokio = { version = "1", features = ["full"] }
axum = "0.7"
warp = "0.3"
minijinja = "1"
docker-api = "0.14"
futures = "0.3"
anyhow = "1"
