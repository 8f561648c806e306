[package]
name = "p2m"
version = "0.1.0"
edition = "2021"
publish = false

[dependencies]
lopdf = "=0.46.0"
unicode-normalization = "=0.1.26"
clap = { version = "=4.6.7", features = ["derive"] }
thiserror = "=2.0.21"
