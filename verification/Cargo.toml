[package]
name = "geco"
version = "0.1.0"
edition = "2021"
publish = false

[dependencies]
bitfield = "0.14"
bytemuck = "1"

[dev-dependencies]
rand = "0.8"
