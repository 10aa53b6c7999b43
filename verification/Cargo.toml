[package]
name = "cc-switch"
version = "0.1.0"
edition = "2021"
publish = false

[dependencies]
dirs = "5"
futures = "0.3"
indexmap = "2"
log = "0.4"
reqwest = { version = "0.12", default-features = false, features = ["json"] }
serde = { version = "1", features = ["derive"] }
serde_json = "1"
tokio = { version = "1", features = ["macros", "net", "rt-multi-thread", "time"] }
tokio-tungstenite = "0.24"
toml_edit = "0.22"
winreg = "0.52"
