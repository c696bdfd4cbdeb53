[package]
name = "mesh_msg"
version = "0.1.0"
edition = "2021"
publish = false

[dependencies]
bytes = "0.4"
failure = "0.1"
mio = "0.6"
mio-extras = "2.0"
slab = "0.4"
