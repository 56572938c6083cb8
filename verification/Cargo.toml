[package]
name = "desubot"
version = "0.1.0"
edition = "2021"
publish = false

[dependencies]
sqlparser = "*"
regex = "1"
html-escape = "0.2"
sha1 = "0.6"
markov = "1"
rand = "0.8"
serde_json = "1"
uuid = { version = "0.8", features = ["v4"] }
rusqlite = { version = "0.23", features = ["bundled"] }
telegram-bot = "0.8"
reqwest = "0.10"
tokio = { version = "0.2", features = ["macros", "rt-threaded"] }
futures = "0.3"
async-trait = "0.1"
subprocess = "0.2"
log = "0.4"
env_logger = "0.7"
