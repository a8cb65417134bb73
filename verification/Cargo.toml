[package]
name = "ambient_core_logic"
version = "0.1.0"
edition = "2021"
publish = false

[dependencies]
aho-corasick = "=1.1.5"
bit-set = "=0.5.3"
bit-vec = "=0.6.3"
convert_case = "=0.6.0"
anyhow = "=1.0.104"
clap = { version = "=4.6.7", features = ["derive"] }
serde = { version = "=1.0.229", features = ["derive"] }
pathdiff = "=0.2.3"

[dev-dependencies]
serde_json = "1"
