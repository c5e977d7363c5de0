[package]
name = "sonic_supervisord_utilities"
version = "0.1.0"
edition = "2021"
publish = false

[dependencies]
clap = { version = "*", features = ["derive"] }
log = "*"
mio = { version = "*", features = ["os-poll", "os-ext"] }
nix = { version = "*", features = ["signal", "process"] }
redis = "*"
syslog = "*"
