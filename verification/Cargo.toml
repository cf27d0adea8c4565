[package]
name = "clickcheck"
version = "0.1.0"
edition = "2021"
publish = false

[dependencies]
ascii_table = "4"
bytesize = "2"
clap = { version = "4", features = ["derive"] }
clickhouse = { version = "0.13", features = ["time"] }
dirs-next = "2"
futures = "0.3"
humansize = "2"
humantime = "2"
hyper-tls = "0.6"
hyper-util = { version = "0.1", features = ["client-legacy", "http1", "tokio"] }
keyring = "3"
rpassword = "7"
secrecy = "0.10"
serde = { version = "1", features = ["derive"] }
serde_json = "1"
serde_yaml = "0.9"
tempfile = "3"
thiserror = "2"
time = { version = "0.3", features = ["formatting", "macros", "parsing"] }
tokio = { version = "1", features = ["macros", "rt-multi-thread", "sync"] }
toml = "0.8"
