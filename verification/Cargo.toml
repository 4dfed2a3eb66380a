[package]
name = "reading_cli"
version = "0.4.0"
edition = "2021"
publish = false

[dependencies]
anyhow = "=1.0.104"
clap = { version = "=4.6.7", features = ["derive"] }
encoding_rs = "=0.8.44"
serde = { version = "=1.0.229", features = ["derive"] }
serde_json = "=1.0.154"
unicode-width = "=0.2.3"
jieba-rs = "=0.11.0"
ltp = { version = "=0.1.9", features = ["serialization"] }
ratatui = "=0.30.2"
crossterm = "=0.29.0"
tui-input = "=0.15.5"
time = "=0.3.55"
chrono = "=0.4.45"
rand = "=0.10.3"
rand_distr = "=0.6.0"
fake = "=5.1.0"
humansize = "=2.1.3"
humantime = "=2.4.0"
progress_string = "=0.2.1"
