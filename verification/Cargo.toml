[package]
name = "conspiracies"
version = "0.1.0"
edition = "2021"
publish = false

[dependencies]
actix = "=0.13.5"
actix-cors = "=0.7.2"
actix-files = "=0.6.10"
actix-web = "=4.18.1"
diesel = { version = "=2.3.14", features = ["sqlite"] }
env_logger = "=0.11.11"
futures = "=0.3.34"
log = "=0.4.34"
serde = { version = "=1.0.229", features = ["derive"] }
serde_derive = "=1.0.229"
