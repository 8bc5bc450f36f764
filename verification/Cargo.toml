[package]
name = "keysearch"
version = "0.1.0"
edition = "2021"
publish = false

[dependencies]
anyhow = "=1.0.104"
async-channel = "=2.5.0"
clap = { version = "=4.6.7", features = ["derive"] }
num_cpus = "=1.17.0"
tokio = { version = "=1.54.1", features = ["macros", "process", "rt-multi-thread", "sync"] }

[dev-dependencies]
allwords = "=0.1.2"
