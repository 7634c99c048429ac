[package]
name = "anderson"
version = "0.1.0"
edition = "2021"
publish = false

[dependencies]
async-openai = "0.28"
clap = { version = "4", features = ["derive", "env"] }
futures-util = "0.3"
libc = "0.2"
reqwest = { version = "0.12", default-features = false, features = ["rustls-tls", "stream"] }
serde_json = "1"
sha2 = "0.10"
tokio = { version = "1", features = ["fs", "io-util", "macros", "process", "rt-multi-thread", "time"] }
