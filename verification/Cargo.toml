[package]
name = "procfast"
version = "0.1.0"
edition = "2021"
publish = false

[dependencies]
libbpf-rs = "0.24"
memmap2 = "0.9"
libc = "0.2"
log = "0.4"
env_logger = "0.11"
serde_json = "1"
signal-hook = "0.3"
thiserror = "1"
tiny_http = "0.12"
