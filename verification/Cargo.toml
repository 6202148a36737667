[package]
name = "cachoeira"
version = "0.1.0"
edition = "2021"
publish = false

[dependencies]
cgmath = { version = "=0.18.0", features = ["serde"] }
error-chain = "=0.12.4"
hibitset = "=0.6.4"
libloading = "=0.8.9"
log = "=0.4.34"
rayon = "=1.12.0"
serde = { version = "=1.0.229", features = ["derive"] }
specs = "=0.16.1"
specs-hierarchy = "=0.6.0"
winit = "=0.30.13"
