[package]
name = "symplex_engine"
version = "0.1.0"
edition = "2021"
publish = false

[dependencies]
egg = "0.9"
good_lp = { version = "~1.8", default-features = false, features = ["minilp"] }
iced-x86 = { version = "1.21", features = ["code_asm"] }
libc = "0.2"
rayon = "1"
rustc-hash = "2"
