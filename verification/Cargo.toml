[package]
name = "entangle"
version = "0.1.0"
edition = "2021"
publish = false

[dependencies]
libc = "0.2"
nix = { version = "0.29", features = ["mman", "fs", "signal"] }
thiserror = "1"
tracing = "0.1"
syn = { version = "2", features = ["full"] }
quote = "1"
proc-macro2 = "1"
