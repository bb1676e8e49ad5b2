[package]
name = "p2p_desktop"
version = "0.1.0"
edition = "2021"
publish = false

[dependencies]
blake3 = "1"
cap-fs-ext = "3"
cap-std = "3"
clap = { version = "4", features = ["derive"] }
dirs = "6"
hex = "0.4"
postcard = { version = "1", features = ["alloc"] }
quinn = "0.11"
rand = "0.8"
rustix = { version = "1", features = ["fs"] }
serde = { version = "1", features = ["derive"] }
serde_json = "1"
thiserror = "2"
tokio = { version = "1", features = ["io-util", "net", "rt-multi-thread", "sync", "time", "macros"] }
tracing = "0.1"
unicode-normalization = "0.1"
unicode-segmentation = "1"
