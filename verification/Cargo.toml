[package]
name = "hashtable_shm"
version = "0.1.0"
edition = "2021"
publish = false

[dependencies]
libc = "0.2"
rustix = { version = "0.38", features = ["shm", "mm", "fs"] }
clap = { version = "4", features = ["derive"] }
ctrlc = "3"
