[package]
name = "vk_backend"
version = "0.1.0"
edition = "2021"
publish = false

[dependencies]
anyhow = "1.0"
ash = "0.31"
byte-slice-cast = "1.0"
log = "0.4"
rspirv-reflect = "0.1"
vk-mem = "0.2"
