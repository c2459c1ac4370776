[package]
name = "arceos_arm"
version = "0.1.0"
edition = "2021"
publish = false

[dependencies]
memory_addr = "0.1"
log = "0.4"
