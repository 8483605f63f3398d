[package]
name = "agent_board"
version = "0.1.0"
edition = "2021"
publish = false

[dependencies]
anyhow = "*"
chrono = "*"
clap = { version = "*", features = ["derive"] }
crossterm = "*"
ratatui = "*"
serde_json = "*"
tokio = { version = "*", features = ["sync"] }
