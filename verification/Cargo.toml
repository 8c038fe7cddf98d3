[package]
name = "arlb"
version = "0.1.0"
edition = "2021"
publish = false

[dependencies]
regex = "=1.13.1"
url = "=2.5.8"
cookie = "=0.16.2"
linked-hash-map = "=0.5.6"
rand = "=0.8.8"
hyper = { version = "=0.14.32", features = ["client", "server", "http1", "tcp", "stream"] }
http-auth-basic = "=0.3.7"
gethostname = "=0.2.3"
tokio = { version = "=1.54.1", features = ["full"] }
arc-swap = "=1.9.3"
log = "=0.4.34"
serde = { version = "=1.0.229", features = ["derive"] }
toml = "=0.5.11"
clap = "=2.34.0"
futures = "0.3"
async-compression = { version = "0.3", features = ["tokio", "brotli", "deflate", "gzip"] }
tokio-util = { version = "0.7", features = ["io", "codec"] }
tokio-rustls = "0.23"
rustls-pemfile = "1"
ldap3 = { version = "0.10", default-features = false }
notify = "4"
acme-lib = "0.8"
log4rs = "1"
pin-project = "1"
