[package]
name = "elf_loader"
version = "0.13.0"
edition = "2021"
publish = false

[dependencies]
hashbrown = "0.15"
syscalls = { version = "0.6", default-features = false }
