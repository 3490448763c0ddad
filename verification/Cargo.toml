[package]
name = "guardian"
version = "0.1.0"
edition = "2021"
publish = false

[dependencies]
async-trait = "=0.1.92"
dstack-sdk-types = "=0.1.3"
hex = "=0.4.3"
miden-protocol = "=0.14.5"
tracing = "=0.1.44"
zeroize = "=1.9.1"
