[package]
name = "group-motivation-bot"
version = "0.1.0"
edition = "2021"
publish = false

[dependencies]
chrono = "=0.4.45"
dptree = "=0.3.0"
log = "=0.4.34"
log4rs = "=1.4.0"
rusqlite = { version = "=0.29.0", features = ["bundled"] }
# teloxide-core takes takecell 0.1. Its 0.1.2 asks for rustc 1.96, so 0.1.1 is held.
takecell = "=0.1.1"
teloxide = { version = "=0.12.2", default-features = false, features = ["macros"] }
tokio = { version = "=1.54.1", features = ["rt-multi-thread", "macros"] }
