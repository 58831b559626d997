[package]
name = "aparte"
version = "0.1.0"
edition = "2021"
publish = false

[dependencies]
anyhow = "1"
chrono = "0.4"
futures = "0.3"
jid = "0.11"
log = "0.4"
minidom = "0.16"
rand = "0.9"
secrecy = "0.8"
serde = { version = "1", features = ["derive"] }
tokio = { version = "1", features = ["rt", "rt-multi-thread", "sync", "macros"] }
tokio-xmpp = { version = "4.0", default-features = false, features = ["starttls-rust"] }
uuid = { version = "1", features = ["v4"] }
xmpp-parsers = "0.21"
