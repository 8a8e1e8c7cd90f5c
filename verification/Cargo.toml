[package]
name = "turn_node"
version = "0.1.0"
edition = "2021"
publish = false

[dependencies]
hmac = "*"
sha1 = "*"
md-5 = "*"
crc32fast = "*"
rand = "*"
bytes = "*"
log = "*"
anyhow = "*"
num_cpus = "*"
tokio = { version = "*", features = ["net", "rt-multi-thread", "macros", "time"] }
