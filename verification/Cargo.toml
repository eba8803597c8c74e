[package]
name = "sfuzz"
version = "0.1.0"
edition = "2021"
publish = false

[dependencies]
byteorder = "=1.5.0"
rand_xoshiro = "=0.6.0"
iced-x86 = { version = "=1.22.0", features = ["code_asm"] }
clap = { version = "=3.2.25", features = ["derive"] }
console = "=0.15.11"
num-format = "=0.4.4"
parse_int = "=0.6.0"
parking_lot = "=0.12.5"
fasthash = "0.4"
