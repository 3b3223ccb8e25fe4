[package]
name = "load_store_pass"
version = "0.1.0"
edition = "2021"
publish = false

[dependencies]
either = "1"
llvm-plugin = { version = "0.6", features = ["llvm14-0"] }
