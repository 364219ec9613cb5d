[package]
name = "procy"
version = "0.1.0"
edition = "2021"
publish = false

[dependencies]
cpal = "0.15"
image = { version = "=0.25.10", default-features = false }
imageproc = { version = "=0.25.1", default-features = false }
itertools = "0.13"
ndarray = "=0.16.1"
petgraph = "=0.6.5"
rand = "=0.8.8"
tracing-tracy = "0.11"
tracy-client = "0.17"
triple_buffer = "8"
