[package]
name = "htb"
version = "0.1.0"
edition = "2021"
publish = false

[dependencies]
subranges = "*"
num = "*"
dashmap = "*"
rayon = "*"
log = "*"
env_logger = "*"
anyhow = "*"
thiserror = "*"
glam = "*"
dotenv = "*"
