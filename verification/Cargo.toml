[package]
name = "wavefront_obj"
version = "0.1.0"
edition = "2021"
publish = false

[dev-dependencies]
quickcheck = "1"
rand = "0.8"
