[package]
name = "pybytearray"
version = "0.1.0"
edition = "2021"
publish = false

[dependencies]
bstr = "0.2"
crossbeam-utils = "0.8"
parking_lot = "0.11"
