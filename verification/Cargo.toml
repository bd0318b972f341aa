[package]
name = "datex_cli"
version = "0.1.0"
edition = "2021"
publish = false

[dependencies]
clap = { version = "*", features = ["derive"] }
crossterm = "*"
home = "*"
ratatui = "*"
realhydroper-lsp = "*"
rustyline = "*"
serde = { version = "*", features = ["derive"] }
tokio = { version = "*", features = ["macros", "rt", "io-std", "io-util", "sync"] }
