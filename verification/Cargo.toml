[package]
name = "spotr"
version = "0.1.0"
edition = "2021"
publish = false

[dependencies]
anyhow = "=1.0.104"
base64 = "=0.22.1"
chrono = "=0.4.45"
directories = "=6.0.0"
env_logger = "=0.11.11"
keyring = "=4.2.0"
log = "=0.4.34"
open = "=5.4.4"
ring = "=0.17.14"
rouille = "=3.6.2"
rpassword = "=7.5.4"
serde = { version = "=1.0.229", features = ["derive"] }
serde_json = "=1.0.151"
structopt = "=0.3.26"
ureq = "*"
