[package]
name = "zk_img"
version = "0.1.0"
edition = "2021"
publish = false

[dependencies]
image = "0.24"
regex = "1"
bincode = "1"
risc0-zkvm = "1"
