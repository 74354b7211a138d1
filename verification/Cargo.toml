[package]
name = "pcli"
version = "1.10.0"
edition = "2021"
publish = false

[dependencies]
anyhow = "1"
base64 = "0.22"
clap = { version = "4", features = ["env"] }
colored = "2"
csv = "1"
dirs = "5"
exitcode = "1"
http = "0.2"
jsonwebtoken = "9"
log = "0.4"
petgraph = "0.6"
pretty_env_logger = "0.5"
ptree = "0.4"
reqwest = { version = "0.11", default-features = false, features = ["blocking", "json", "rustls-tls"] }
rpassword = "7"
self_update = { version = "0.39", default-features = false, features = ["rustls"] }
serde = { version = "1", features = ["derive"] }
serde_json = "1"
serde_yaml = "0.9"
sysinfo = "0.29"
tempfile = "3"
thiserror = "1"
unicase = "2"
url = "2"
uuid = { version = "1", features = ["serde"] }
