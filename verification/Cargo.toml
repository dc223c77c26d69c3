[package]
name = "rcore_thread"
version = "0.1.0"
edition = "2021"
publish = false

[dependencies]
apic = "*"
bitflags = "1"
lazy_static = "1"
log = "0.4"
smoltcp = "*"
volatile = "0.2"
x86_64 = { version = "*", default-features = false, features = ["instructions"] }
