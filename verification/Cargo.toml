[package]
name = "vocrab"
version = "0.1.0"
edition = "2021"
publish = false

[dependencies]
crossterm = "0.25"
neon = "1"
num_cpus = "1"
serde = { version = "1", features = ["derive"] }
serde_json = "1"
structopt = "0.3"
textwrap = "0.16"
thiserror = "1"
tui = "0.19"
