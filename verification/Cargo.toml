[package]
name = "langmeta"
version = "0.1.0"
edition = "2021"
publish = false

[dependencies]
serde_json = "=1.0.151"
handlebars = "=6.4.4"
ignore = "=0.4.33"
env_logger = "=0.11.11"
log = "=0.4.34"
