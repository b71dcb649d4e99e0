[package]
name = "tcap_bench"
version = "0.1.0"
edition = "2021"
publish = false

[dependencies]
clap = { version = "=4.6.7", features = ["derive"] }
csv = "=1.4.0"
ctrlc = "=3.5.2"
log = "=0.4.35"
simple_logger = "=5.2.0"
tokio = { version = "=1.54.1", features = ["full"] }
