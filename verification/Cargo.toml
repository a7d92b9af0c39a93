[package]
name = "hdrhistogram"
version = "0.1.0"
edition = "2021"
publish = false

[dependencies]
base64 = "0.13"
byteorder = "1"
bytes = "1"
lazycell = "1"
miniz_oxide = "0.7"
num-traits = "0.2"
parking_lot = "0.12"
