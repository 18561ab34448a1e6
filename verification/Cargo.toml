[package]
name = "fwupdate"
version = "0.1.0"
edition = "2021"
publish = false

[dependencies]
regex = "1"
serde_json = "1"
log = "0.4"
env_logger = "0.10"
hostname = { version = "0.3", features = ["set"] }
config = { version = "0.13", default-features = false, features = ["toml", "json"] }
tera = { version = "1", default-features = false }
reqwest = { version = "0.11", default-features = false }
actix-web = { version = "4", default-features = false, features = ["macros"] }
actix-multipart = "0.6"
