[package]
name = "boardswarm"
version = "0.1.0"
edition = "2021"
publish = false

[dependencies]
android-sparse-image = "=0.1.3"
anyhow = "=1.0.104"
async-compression = { version = "0.4", features = ["futures-io", "gzip"] }
bmap-parser = "=0.2.3"
clap = { version = "=4.6.7", features = ["derive"] }
fastboot-protocol = "=0.4.0"
futures = "=0.3.34"
http = "=1.5.0"
oauth2 = { version = "4.4", default-features = false, features = ["reqwest", "rustls-tls"] }
prost-types = "=0.14.4"
ratatui = "=0.30.2"
reqwest = { version = "0.11", default-features = false, features = ["json", "rustls-tls"] }
rockfile = "=0.1.2"
serde = { version = "=1.0.229", features = ["derive"] }
serde_json = "=1.0.154"
serde_yaml = "=0.9.34+deprecated"
tokio = { version = "1", features = ["rt", "time"] }
url = "=2.5.8"
vt100 = "=0.16.2"
