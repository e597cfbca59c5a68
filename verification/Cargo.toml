[package]
name = "stagent"
version = "0.1.0"
edition = "2021"
publish = false

[dependencies]
anyhow = "=1.0.104"
clap = { version = "=4.6.7", features = ["derive"] }
crossterm = "=0.28.1"
git2 = { version = "=0.19.0", default-features = false }
glob = "=0.3.4"
ratatui = "=0.29.0"
similar = "=2.7.0"
syntect = { version = "=5.3.0", default-features = false, features = ["default-fancy"] }
tempfile = "=3.27.0"
