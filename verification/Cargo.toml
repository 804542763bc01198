[package]
name = "redo"
version = "0.1.0"
edition = "2021"
publish = false

[dependencies]
libc = "0.2"
nix = { version = "0.29", features = ["fs", "process", "signal", "term", "ioctl", "event", "poll"] }
rusqlite = { version = "0.31", features = ["bundled"] }
sha1_smol = "1"
