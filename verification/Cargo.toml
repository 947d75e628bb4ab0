[package]
name = "seafuse"
version = "0.1.0"
edition = "2021"
publish = false

[dependencies]
bimap = "*"
bisection = "*"
chrono = "*"
clap = { version = "*", features = ["derive"] }
escape-bytes = "*"
flate2 = "*"
fuser = "*"
libc = "*"
log = "*"
serde_json = "*"
simple_logger = "*"
walkdir = "*"
