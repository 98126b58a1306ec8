[package]
name = "trashctl"
version = "0.1.0"
edition = "2021"
publish = false

[dependencies]
anyhow = "*"
chrono = "*"
clap = "*"
clap_complete = "*"
dirs = "*"
fs_extra = "*"
