[package]
name = "bpsr_module_optimizer"
version = "0.1.0"
edition = "2021"
publish = false

[dependencies]
rayon = "1"
zstd = "0.13"
etherparse = "0.16"
prost = "0.13"
serde = { version = "1", features = ["derive"] }
serde_json = "1"
log = "0.4"
env_logger = "0.11"
thiserror = "2"
tokio = { version = "1", features = ["sync", "rt", "rt-multi-thread", "time", "macros"] }
pollster = "0.4"
wgpu = "*"
