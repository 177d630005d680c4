[package]
name = "brightness_control"
version = "2.1.2"
edition = "2021"
publish = false

[dependencies]
bincode = "1.3"
clap = "2.33"
daemonize = "0.5"
directories = "4"
fnv = "1.0"
futures = "0.3"
getopts = "0.2"
regex = "1"
serde = { version = "1.0", features = ["derive"] }
signal-hook = "0.3"
signal-hook-tokio = { version = "0.3", features = ["futures-v0_3"] }
tokio = { version = "1", features = ["fs", "io-util", "macros", "net", "process", "rt", "sync", "time"] }
tokio-stream = { version = "0.1", features = ["net"] }
toml = "0.5"
