[package]
name = "rssh_win"
version = "0.1.0"
edition = "2021"
publish = false

[dependencies]
anyhow = "1"
bincode = "1"
directories = "*"
serde = { version = "1", features = ["derive"] }
ssh2 = "0.9"
