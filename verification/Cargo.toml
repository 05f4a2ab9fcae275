[package]
name = "lubun"
version = "0.1.0"
edition = "2021"
publish = false

[dependencies]
uefi = { version = "=0.24.0", features = ["logger"] }
acpi = "=5.2.0"
spin = "=0.9.9"
log = "=0.4.35"
