[package]
name = "solparse"
version = "0.1.0"
edition = "2021"
publish = false

[dependencies]
select = "*"
chrono = "*"
serde = { version = "*", features = ["derive"] }
serde_json = "*"
fantoccini = "*"
tokio = { version = "*", features = ["macros", "rt-multi-thread", "sync"] }
clap = { version = "*", features = ["derive"] }
log = "*"
env_logger = "*"
dotenv = "*"
