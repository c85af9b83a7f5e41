[package]
name = "min_mq"
version = "0.1.0"
edition = "2021"
publish = false

[dependencies]
flatbuffers = "2"
nng = "1"
socket2 = "0.4"
chrono = "0.4"
