[package]
name = "aster"
version = "0.1.0"
edition = "2021"
publish = false

[dependencies]
anyhow = "1"
bytes = "1"
chrono = { version = "0.4", features = ["serde"] }
clap = { version = "4", features = ["derive"] }
console = "0.15"
crossbeam-channel = "0.5"
crossterm = "0.28"
fs2 = "0.4"
getrandom = "0.3"
git2 = { version = "0.19", default-features = false }
globset = "=0.4.21"
http-body-util = "0.1"
hyper = { version = "1", features = ["http1", "server", "client"] }
hyper-util = { version = "0.1", features = ["client", "client-legacy", "http1", "tokio"] }
ignore = "0.4"
libc = "0.2"
notify = "6"
petgraph = "=0.6.5"
ratatui = { version = "0.29", features = ["unstable-rendered-line-info"] }
rustls-pemfile = "2"
serde = { version = "1", features = ["derive"] }
serde_json = "=1.0.154"
sha2 = "=0.10.9"
shell-words = "=1.1.1"
tokio = { version = "1", features = ["io-util", "macros", "net", "rt-multi-thread"] }
tokio-rustls = { version = "0.26", default-features = false, features = ["ring", "tls12"] }
toml = "0.8"
walkdir = "2"
