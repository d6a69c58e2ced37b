[package]
name = "savefile"
version = "0.1.0"
edition = "2021"
publish = false

[dependencies]
chrono = "0.4"
clap = { version = "4", features = ["derive"] }
dialoguer = "*"
dirs = "*"
glob = "0.3"
notify = "*"
open = "*"
rusqlite = { version = "*", features = ["chrono"] }
serde = { version = "1", features = ["derive"] }
serde_json = "1"
tabled = "*"
thiserror = "*"
