[package]
name = "canopen_node"
version = "0.1.0"
edition = "2021"
publish = false

[dependencies]
embedded-can = "*"
hashbrown = "*"
nb = "*"
