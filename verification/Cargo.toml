[package]
name = "overlay_scribe"
version = "0.1.0"
edition = "2021"
publish = false

[dependencies]
const_soft_float = "*"
rustc_apfloat = "*"
