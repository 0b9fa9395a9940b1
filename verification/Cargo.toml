[package]
name = "cheetos"
version = "0.1.0"
edition = "2021"
publish = false

[dependencies]
bootloader_api = "=0.11.17"
getopts = "=0.2.24"

[dependencies.x86_64]
version = "=0.15.5"
default-features = false
features = ["instructions"]
