[package]
name = "fatx_recover"
version = "0.1.0"
edition = "2021"
publish = false

[dependencies]
byteorder = "1"
env_logger = "0.11"
err-derive = "0.3"
log = "0.4"
memmap = "0.7"
structopt = "0.3"
