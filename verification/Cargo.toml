[package]
name = "ch347_core"
version = "0.1.0"
edition = "2021"
publish = false

[dependencies]
nusb = "0.1"
smol = "2"
log = "0.4"
embedded-hal = "1"
