[package]
name = "essential_debugger"
version = "0.1.0"
edition = "2021"
publish = false

[dependencies]
anyhow = "*"
clap = { version = "*", features = ["derive"] }
dialoguer = { version = "*", features = ["fuzzy-select", "history"] }
essential-constraint-asm = "=0.2.0"
essential-constraint-vm = "=0.2.0"
essential-hash = "=0.2.0"
essential-state-asm = "=0.2.0"
essential-state-read-vm = "=0.2.0"
essential-types = "=0.2.0"
hex = "*"
inquire = "*"
serde_json = "*"
tokio = { version = "*", features = ["rt-multi-thread", "macros", "fs"] }
