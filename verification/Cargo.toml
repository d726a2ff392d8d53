[package]
name = "patstrap"
version = "0.1.0"
edition = "2021"
publish = false

[dependencies]
anyhow = "=1.0.104"
async-trait = "=0.1.92"
clap = { version = "=4.6.7", default-features = false, features = ["std", "derive", "help", "usage", "error-context"] }
eframe = { version = "=0.31.1", default-features = false, features = ["glow", "x11"] }
env_logger = { version = "=0.11.11", default-features = false }
futures-util = { version = "=0.3.34", default-features = false, features = ["std"] }
log = "=0.4.35"
mdns-sd = { version = "=0.21.7", default-features = false }
serde = { version = "=1.0.229", features = ["derive"] }
serde_json = "=1.0.154"
tokio = { version = "=1.54.1", features = ["rt-multi-thread", "macros", "net", "time", "sync", "io-util"] }
tokio-util = "=0.7.20"
vrchat_osc = "=2.2.0"
