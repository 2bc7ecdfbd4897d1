[package]
name = "lounge"
version = "0.1.0"
edition = "2021"
publish = false

[dependencies]
anyhow = "1"
clap = { version = "4", features = ["derive"] }
env_logger = "*"
log = "0.4"
ratatui = { version = "0.29", default-features = false, features = ["termion"] }
ringbuffer = "*"
russh = "*"
thiserror = "*"
tokio = { version = "1", features = ["full"] }
tui-textarea = { version = "0.7", default-features = false, features = ["termion"] }
