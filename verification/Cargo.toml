[package]
name = "fetchpost"
version = "0.1.0"
edition = "2021"
publish = false

[dependencies]
url = "=2.5.8"
reqwest = { version = "=0.11.27", default-features = false, features = ["blocking", "multipart", "cookies", "brotli", "gzip", "deflate"] }
governor = "=0.6.3"
rand = "=0.8.8"
serde_json = { version = "=1.0.151", features = ["preserve_order"] }
jql = "=5.2.0"
jsonxf = "=1.1.1"
redis = { version = "=1.7.1", default-features = false }
csv = "=1.4.0"
indicatif = "=0.18.6"
console = "=0.16.6"
log = "=0.4.34"
