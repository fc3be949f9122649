[package]
name = "krun"
version = "0.1.0"
edition = "2021"
publish = false

[dependencies]
crossbeam-channel = "0.5"
env_logger = "0.11"
kvm-ioctls = "0.19"
libc = "0.2"
libloading = "0.8"
log = "0.4"
once_cell = "1"
