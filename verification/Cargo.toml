[package]
name = "rcon_cli"
version = "0.1.0"
edition = "2021"
publish = false

[dependencies]
anyhow = "*"
clap = { version = "*", features = ["derive"] }
clap_complete = "*"
clap-verbosity-flag = "*"
comfy-table = "*"
confy = "*"
env_logger = "*"
inquire = "*"
log = "*"
rcon-client = "*"
rustyline = "*"
serde = { version = "*", features = ["derive"] }
