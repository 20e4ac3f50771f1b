[package]
name = "ssimulacra2-vulkan"
version = "0.1.0"
edition = "2021"
publish = false

[dependencies]
ash = "0.38"
png = "0.17"
