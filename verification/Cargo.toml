[package]
name = "chip8"
version = "0.1.0"
edition = "2021"
publish = false

[dependencies]
rand = "=0.7.3"
log = "=0.4.34"
env_logger = "=0.9.3"
structopt = "=0.3.26"
clap-verbosity-flag = "=0.3.2"
minifb = "=0.25.0"
