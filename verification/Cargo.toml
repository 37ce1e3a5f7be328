[package]
name = "xfs"
version = "0.1.0"
edition = "2021"
publish = false

[dependencies]
clap = { version = "4", features = ["derive"] }
fuser = { version = "*", default-features = false }
libc = "0.2"
rootcause = "*"
thiserror = "2"
uuid = { version = "1", features = ["v4"] }
