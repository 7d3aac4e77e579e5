[package]
name = "jasn"
version = "0.1.0"
edition = "2021"
publish = false

[dependencies]
anyhow = "*"
base64 = "*"
clap = { version = "*", features = ["derive"] }
clap_complete = "*"
serde = { version = "*", features = ["derive"] }
thiserror = "*"
time = { version = "*", features = ["formatting", "parsing"] }
