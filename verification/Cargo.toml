[package]
name = "vors_tracker"
version = "0.1.0"
edition = "2021"
publish = false

[dependencies]
png = "=0.12.0"
image = "=0.19.0"
nalgebra = "=0.17.3"
visual-odometry-rs = "=0.1.0"
wasm-bindgen = "=0.2.129"

[dev-dependencies]
tar = "0.4"
