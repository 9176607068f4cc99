[package]
name = "backdrop_render"
version = "0.1.0"
edition = "2021"
publish = false

[dependencies]
bytemuck = "=1.25.2"
log = "0.4"
peniko = "=0.6.1"
vello_encoding = "=0.11.0"
