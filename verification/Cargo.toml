[package]
name = "virtio_drivers"
version = "0.1.0"
edition = "2021"
publish = false

[dependencies]
bitflags = "1.3"
lock_api = "0.4"
log = "0.4"
pin-project = "1"
spin = "0.9"
volatile = "0.3"
