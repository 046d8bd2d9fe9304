[package]
name = "fasttext_serving"
version = "0.1.0"
edition = "2021"
publish = false

[dependencies]
fasttext = "*"
actix-web = "*"
clap = "*"
ctrlc = "*"
log = "*"
pretty_env_logger = "*"
num_cpus = "*"
serde = { version = "*", features = ["derive"] }
