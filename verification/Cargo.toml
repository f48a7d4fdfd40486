[package]
name = "guest_profiler"
version = "0.1.0"
edition = "2021"
publish = false

[dependencies]
addr2line = "=0.27.1"
clap = { version = "=4.6.7", features = ["derive"] }
clap-num = "=1.2.0"
color-eyre = "=0.6.5"
itertools = "=0.15.0"
qapi = { version = "=0.15.0", features = ["qmp", "async-tokio-all"] }
tokio = { version = "=1.54.1", features = ["full"] }
