[package]
name = "panicatorul"
version = "0.1.0"
edition = "2021"
publish = false

[dependencies]
clap = { version = "4", features = ["derive"] }
llvm-sys = "170"
smallstr = "0.3"
