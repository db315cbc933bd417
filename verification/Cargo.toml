[package]
name = "jrepl"
version = "0.1.0"
edition = "2021"
publish = false

[dependencies]
rustc_apfloat = "*"
clap = { version = "4", features = ["derive"] }
rustyline = "*"
serde_json = "1"
