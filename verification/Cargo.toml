[package]
name = "shm_hashtable"
version = "0.1.0"
edition = "2021"
publish = false

[dependencies]
rand = "0.8"
clap = { version = "4", features = ["cargo"] }
env_logger = "0.11"
log = "0.4"
libc = "0.2"
rustix = { version = "0.38", features = ["shm", "fs", "mm"] }
memoffset = "0.9"
tokio = { version = "1", features = ["macros", "rt-multi-thread", "signal"] }
