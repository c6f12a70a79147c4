[package]
name = "ossido_bench"
version = "0.1.0"
edition = "2021"
publish = false

[dependencies]
anyhow = "1"
async-trait = "0.1"
clap = { version = "4", features = ["derive"] }
colored = "2"
futures-util = "0.3"
hdrhistogram = "7"
indicatif = "0.17"
jiff = "0.2"
nix = { version = "0.29", features = ["process", "signal"] }
reqwest = { version = "0.12", default-features = false, features = ["stream"] }
serde = { version = "1", features = ["derive"] }
serde_json = { version = "1", features = ["preserve_order"] }
sysinfo = "0.33"
tokio = { version = "1", features = ["macros", "rt-multi-thread", "time"] }
