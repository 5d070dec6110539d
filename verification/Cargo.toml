[package]
name = "ena_links"
version = "0.1.0"
edition = "2021"
publish = false

[dependencies]
regex = "=1.13.1"
roxmltree = "=0.21.1"
clap = { version = "=4.6.7", features = ["derive"] }
is-terminal = "=0.4.17"
reqwest = { version = "=0.13.5", default-features = false, features = ["json", "query"] }
serde = { version = "=1.0.229", features = ["derive"] }
serde_json = "=1.0.151"
tokio = { version = "=1.53.2", features = ["macros", "rt-multi-thread", "time"] }
futures-util = "=0.3.34"
