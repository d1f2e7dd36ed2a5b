[package]
name = "container-hotplug"
version = "0.1.0"
edition = "2021"
publish = false

[dependencies]
anyhow = "1"
async-stream = "0.3"
aya = "0.13"
clap = { version = "4", features = ["derive"] }
env_logger = "0.11"
humantime = "2"
libc = "0.2"
log = "0.4"
rustix = { version = "1", features = ["fs", "mount", "process", "stdio", "thread", "net", "pipe"] }
safe-fork = "*"
serde = { version = "1", features = ["derive"] }
serde_json = "1"
tokio = { version = "1", features = ["full"] }
tokio-stream = "0.1"
udev = "*"
