[package]
name = "oxeylyzer_core"
version = "0.1.0"
edition = "2021"
publish = false

[dependencies]
arrayvec = "0.7"
fxhash = "0.2"
itertools = "0.10"
nanorand = "0.7"
serde = { version = "1", features = ["derive"] }
