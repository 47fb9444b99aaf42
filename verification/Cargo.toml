[package]
name = "audioipc"
version = "0.1.0"
edition = "2021"
publish = false

[dependencies]
bytes = "0.5"
futures = "0.3"
futures-io = "0.3"
futures-util = "0.3"
libc = "0.2"
log = "0.4"
mio = "0.6"
mio-uds = "0.6"
tokio = { version = "0.2", features = ["io-driver", "rt-core", "sync", "io-util"] }
once_cell = "1"
error-chain = "0.12"
cubeb-core = "*"
audio_thread_priority = "*"
