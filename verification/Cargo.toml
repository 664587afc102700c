[package]
name = "seamless_fs"
version = "0.1.0"
edition = "2021"
publish = false

[dependencies]
percent-encoding = "=2.3.2"
v_htmlescape = "=0.17.0"
humansize = "=2.1.3"
serde = { version = "=1.0.229", features = ["derive"] }
serde_json = "=1.0.151"
dotenvy = "=0.15.7"
envy = "=0.4.2"
env_logger = "=0.11.11"
once_cell = "=1.21.4"
walkdir = "=2.5.0"
notify = "=8.2.0"
tokio = { version = "=1.53.2", features = ["full"] }
reqwest = { version = "=0.13.5", default-features = false, features = ["json"] }
ntex = { version = "=3.12.3", features = ["tokio"] }
ntex-files = "=3.2.0"
