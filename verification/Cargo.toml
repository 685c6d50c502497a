[package]
name = "termcineua"
version = "0.1.0"
edition = "2021"
publish = false

[dependencies]
anyhow = "1"
crossterm = "*"
reqwest = "*"
serde = { version = "1", features = ["derive"] }
serde_json = "1"
tempdir = "0.3"
thirtyfour = "*"
tokio = { version = "1", features = ["full"] }
