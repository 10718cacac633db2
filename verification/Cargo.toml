[package]
name = "bmvm-host"
version = "0.1.0"
edition = "2021"
publish = false

[dependencies]
goblin = "*"
kvm-ioctls = "*"
kvm-bindings = "*"
nix = { version = "*", features = ["mman", "fs"] }
log = "*"
inventory = "*"
