[package]
name = "portfolio_solver_framework"
version = "0.1.0"
edition = "2021"
publish = false

[dependencies]
anyhow = "1"
async-tempfile = "*"
clap = { version = "4", features = ["derive"] }
core_affinity = "*"
ctrlc = "3"
directories = "*"
futures = "0.3"
itertools = "*"
libc = "0.2"
nix = { version = "*", features = ["signal", "sched", "process"] }
regex = "1"
serde = { version = "1", features = ["derive"] }
serde_json = "1"
sysinfo = "*"
tempfile = "3"
thiserror = "*"
tokio = { version = "1", features = ["full"] }
tokio-util = "0.7"
uuid = { version = "1", features = ["v4"] }
