[package]
name = "ext2"
version = "0.1.0"
edition = "2021"
publish = false

[dependencies]
rustyline = "=14.0.0"
uuid = "=1.29.0"
zerocopy = "=0.7.35"
