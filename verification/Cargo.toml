[package]
name = "ic_testkit"
version = "0.1.0"
edition = "2021"
publish = false

[dependencies]
candid = "0.10"
fs2 = "0.4"
ic-cdk = "0.18"
serde_json = "1"
sha2 = "0.11"
toml = "0.9"
