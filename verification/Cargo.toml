[package]
name = "envelope_encryption"
version = "0.1.0"
edition = "2021"
publish = false

[dependencies]
arrayvec = "=0.7.8"
base64 = "=0.13.1"
fasthash = "=0.4.0"
fernet = { version = "=0.2.2", default-features = false, features = ["rustcrypto"] }
aws-config = "=1.12.0"
aws-sdk-kms = "=1.123.0"
aws-sdk-s3 = "=1.152.0"
aws-types = "=1.6.0"
chrono = "=0.4.45"
env_logger = "=0.10.2"
log = "=0.4.34"
random = "=0.12.2"
tempfile = "=3.27.0"
tokio = { version = "=1.54.1", features = ["macros", "rt-multi-thread"] }
tokio-postgres = "=0.7.18"
yaml-rust = "=0.4.5"
