[package]
name = "sptfydl"
version = "0.1.0"
edition = "2021"
publish = false

[dependencies]
anyhow = "*"
async-channel = "*"
base64 = "*"
chrono = "*"
clap = { version = "*", features = ["derive"] }
console = "*"
ctrlc = "*"
dialoguer = "*"
lofty = "*"
regex = "*"
reqwest = { version = "*", default-features = false, features = ["json", "form", "query"] }
serde = { version = "*", features = ["derive"] }
serde_json = "*"
serde_yaml = "*"
sha1 = "*"
tokio = { version = "*", features = ["rt-multi-thread", "macros", "sync", "process", "io-util", "time"] }
