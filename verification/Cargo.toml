[package]
name = "gclog"
version = "0.1.0"
edition = "2021"
publish = false

[dependencies]
time = { version = "*", features = ["formatting", "parsing"] }
clap = { version = "*", features = ["derive"] }
tabled = "*"
