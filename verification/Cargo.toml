[package]
name = "microps"
version = "0.1.0"
edition = "2021"
publish = false

[dependencies]
slotmap = "1"
thiserror = "2"
bitflags = "2"
getset = "0.1"
