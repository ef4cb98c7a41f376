[package]
name = "pdft"
version = "0.1.0"
edition = "2021"
publish = false

[dependencies]
anyhow = "1"
clap = { version = "4", features = ["derive"] }
crossterm = "*"
hayro = "*"
image = { version = "*", default-features = false, features = ["png"] }
kurbo = "*"
lopdf = { version = "*", default-features = false }
lru = "*"
notify-debouncer-mini = "*"
ratatui = "*"
ratatui-image = { version = "*", default-features = false }
