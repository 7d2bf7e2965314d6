[package]
name = "ropr"
version = "0.1.0"
edition = "2021"
publish = false

[dependencies]
iced-x86 = { version = "=1.21.0", default-features = false, features = ["std", "decoder", "intel", "instr_info"] }
goblin = "=0.10.7"
regex = "=1.13.1"
clap = { version = "=4.6.7", features = ["derive"] }
colored = "=3.1.1"
