[package]
name = "tilt_compass"
version = "0.1.0"
edition = "2021"
publish = false

[dependencies]
cortex-m-rt = "=0.7.7"
libm = "=0.2.16"
lsm303agr = "=0.2.2"
microbit-v2 = "=0.12.0"
panic-rtt-target = { version = "=0.1.2", features = ["cortex-m"] }
rtt-target = { version = "=0.3.1", features = ["cortex-m"] }
