[package]
name = "complexity_radar"
version = "0.1.0"
edition = "2021"
publish = false

[dependencies]
anyhow = "=1.0.104"
async-trait = "=0.1.92"
chrono = "=0.4.45"
clap = { version = "=4.6.7", features = ["derive"] }
env_logger = "=0.11.11"
futures = "=0.3.34"
futures-util = "=0.3.34"
itertools = "=0.15.0"
octocrab = { version = "=0.41.2", features = ["stream"] }
syn = { version = "=3.0.6", features = ["full"] }
tokio = { version = "=1.53.2", features = ["macros", "rt-multi-thread"] }
