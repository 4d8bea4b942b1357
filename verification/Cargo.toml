[package]
name = "brainix_kernel"
version = "0.1.0"
edition = "2021"
publish = false

[dependencies]
sha2 = { version = "=0.10.9", default-features = false }
x86_64 = { version = "=0.15.5", default-features = false, features = ["instructions"] }
multiboot2 = "=0.28.0"
