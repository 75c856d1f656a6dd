[package]
name = "deet"
version = "0.1.0"
edition = "2021"
publish = false

[dependencies]
gimli = "*"
libc = "*"
nix = { version = "*", features = ["ptrace", "signal", "process"] }
object = "*"
rustyline = "*"
