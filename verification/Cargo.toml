[package]
name = "minute"
version = "0.1.0"
edition = "2021"
publish = false

[dependencies]
serde = { version = "=1.0.229", features = ["derive"] }
serde_json = "=1.0.154"
sha2 = "=0.10.9"
time = { version = "=0.3.55", features = ["formatting", "parsing", "macros"] }
llama-cpp-2 = "*"
whisper-rs = "*"
