[package]
name = "spicy_os"
version = "0.1.0"
edition = "2021"
publish = false

[dependencies]
hashbrown = "0.8"
xmas-elf = "0.7"
