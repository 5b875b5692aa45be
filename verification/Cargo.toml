[package]
name = "rotor_dns"
version = "0.1.0"
edition = "2021"
publish = false

[dependencies]
dns-parser = "*"
rand = "*"
resolv-conf = "*"
