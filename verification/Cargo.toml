[package]
name = "ftx_fetch"
version = "0.1.0"
edition = "2021"
publish = false

[dependencies]
chrono = "0.4"
clap = { version = "3", features = ["derive"] }
ftx = "*"
log = "0.4"
pretty_env_logger = "0.5"
prettytable-rs = "*"
rust_decimal = "1"
rust_decimal_macros = "1"
thiserror = "1"
tokio = { version = "1", features = ["macros", "rt-multi-thread", "time"] }
