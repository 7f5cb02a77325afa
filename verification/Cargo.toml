[package]
name = "udpexchange"
version = "0.1.0"
edition = "2021"
publish = false

[dependencies]
const-lru = "*"
argh = "*"
static-alloc = "*"
