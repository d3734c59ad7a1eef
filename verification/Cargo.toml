[package]
name = "humboldti_note"
version = "0.1.0"
edition = "2021"
publish = false

[dependencies]
unicode-segmentation = "1"
unicode-width = "0.2"
chrono = "0.4"
regex = "1"
shellexpand = "3"
clap = { version = "4", features = ["derive"] }
crossterm = "0.28"
ratatui = "0.29"
rmcp = { version = "*", features = ["server", "transport-io", "macros"] }
tokio = { version = "1", features = ["rt", "macros", "io-std"] }
serde = { version = "1", features = ["derive"] }
serde_json = "1"
toml = "*"
figment = { version = "0.10", features = ["toml", "env"] }
etcetera = "*"
ignore = "0.4"
anyhow = "1"
thiserror = "2"
