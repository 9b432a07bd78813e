[package]
name = "av1an-core"
version = "0.1.0"
edition = "2021"
publish = false

[dependencies]
ansi_term = "0.12"
anyhow = "1"
clap = { version = "4", features = ["derive"] }
clap_complete = "4"
crossbeam-utils = "0.8"
indicatif = "0.17"
num-traits = "0.2"
once_cell = "1"
parking_lot = "0.12"
path_abs = "0.5"
rand = "0.8"
serde = { version = "1", features = ["derive"] }
serde_json = "1"
shlex = "1"
simdutf8 = "0.1"
splines = "4"
tracing = "0.1"
