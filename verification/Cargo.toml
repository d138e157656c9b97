[package]
name = "tikv"
version = "0.1.0"
edition = "2021"
publish = false

[dependencies]
bytes = "1"
mio = { version = "1", features = ["os-poll"] }
protobuf = "2"
raft = "0.7"
rocksdb = "0.25"
uuid = { version = "1", features = ["v4"] }
