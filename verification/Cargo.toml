[package]
name = "oxyromon"
version = "0.1.0"
edition = "2021"
publish = false

[dependencies]
crc32fast = "=1.5.4"
md-5 = "=0.10.6"
sha1 = "=0.10.7"
digest = "=0.10.7"
regex = "=1.13.1"
serde = { version = "=1.0.229", features = ["derive"] }
serde_json = "=1.0.154"
zip = { version = "=9.2.2", default-features = false, features = ["deflate", "zstd"] }
sevenz-rust2 = { version = "=0.24.2", features = ["zstd"] }

[dev-dependencies]
tempfile = "=3.27.0"
