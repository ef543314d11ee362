[package]
name = "silo"
version = "0.1.0"
edition = "2021"
publish = false

[dependencies]
sysinfo = { version = "=0.33.1", default-features = false, features = ["system"] }
chrono = "=0.4.45"
urlencoding = "=2.1.3"
serde = { version = "=1.0.229", features = ["derive"] }
serde_json = "=1.0.154"
walkdir = "=2.5.0"
notify = "=6.1.1"
log = "=0.4.35"
zip = { version = "=0.6.6", default-features = false, features = ["deflate"] }
reqwest = { version = "=0.12.28", default-features = false, features = ["json"] }
winreg = "0.52"
