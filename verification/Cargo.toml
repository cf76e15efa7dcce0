[package]
name = "netsync"
version = "0.1.0"
edition = "2021"
publish = false

[dependencies]
rand = "=0.8.8"
renet = "=2.0.0"
renet_netcode = "*"
