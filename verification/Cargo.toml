[package]
name = "g_flite"
version = "0.2.0"
edition = "2021"
publish = false

[dependencies]
clap = "2"
console = "*"
env_logger = "*"
hound = "*"
indicatif = "*"
serde_json = "1"
