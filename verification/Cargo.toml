[package]
name = "matching_engine"
version = "0.1.0"
edition = "2021"
publish = false

[dependencies]
ironfix-core = "*"
ironfix-tagvalue = "*"
ironsbe-core = "*"
libc = "0.2"

[dev-dependencies]
ironsbe-codegen = "*"
