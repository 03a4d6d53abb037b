[package]
name = "flecs_core"
version = "0.1.0"
edition = "2021"
publish = false

[dependencies]
flexbuffers = "2.0.0"
once_cell = "1.19.0"
