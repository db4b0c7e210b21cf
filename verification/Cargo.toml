[package]
name = "shmd"
version = "0.1.0"
edition = "2021"
publish = false

[dependencies]
id3 = "1"
diesel = { version = "2", features = ["postgres", "r2d2"] }
tokio = { version = "1", features = ["full"] }
tokio-postgres = "0.7"
warp = "0.3"
serde = { version = "1", features = ["derive"] }
serde_json = "1"
toml = "0.5"
log = "0.4"
pretty_env_logger = "0.4"
