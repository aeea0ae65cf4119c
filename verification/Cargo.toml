[package]
name = "paon"
version = "0.1.0"
edition = "2021"
publish = false

[dependencies]
num-complex = "0.2"
png = "0.16"
raster = "0.2"
