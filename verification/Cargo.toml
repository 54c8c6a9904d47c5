[package]
name = "of_project_gen"
version = "0.1.0"
edition = "2021"
publish = false

[dependencies]
argparse = "0.2"
env_logger = "*"
log = "0.4"
serde_json = "1"
