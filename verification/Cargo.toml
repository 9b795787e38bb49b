[package]
name = "sawtooth_raft"
version = "0.1.0"
edition = "2021"
publish = false

[dependencies]
raft = "0.4"
protobuf = "2"
uluru = "*"
hex = "*"
serde_json = "*"
sawtooth-sdk = "*"
clap = "2"
log = "0.4"
log4rs = "0.8"
log4rs-syslog = "*"
