[package]
name = "inotifytools"
version = "0.1.0"
edition = "2021"
publish = false

[dependencies]
chrono = "0.4"
clap = "4"
inotify = { version = "0.10", default-features = false }
regex = "1"
signal-hook = "0.3"
thiserror = "1"
