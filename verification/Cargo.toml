[package]
name = "gateway"
version = "0.1.0"
edition = "2021"
publish = false

[dependencies]
actix-files = "0.5"
actix-web = { version = "=3.3.3", default-features = false, features = ["openssl"] }
awc = { version = "=2.0.3", default-features = false }
bcrypt = "=0.15.1"
cll = "=0.1.1"
cookie = { version = "=0.14.4", features = ["secure", "percent-encode"] }
dotenv = "=0.15.0"
env_logger = "=0.10.2"
forwarded = "=1.0.7"
futures = "=0.3.34"
log = "=0.4.35"
markup = "=0.16.0"
mongodb = "=2.8.2"
openssl = "=0.10.82"
rand = "=0.8.8"
serde = { version = "=1.0.229", features = ["derive"] }
serde_any = { version = "0.5", default-features = false, features = ["ron", "yaml"] }
serde_json = "=1.0.154"
serde_yaml = "=0.9.34"
toml = "=0.5.11"
uuid = "=1.29.0"
validator = { version = "=0.16.1", features = ["derive"] }
