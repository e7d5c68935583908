[package]
name = "balancer"
version = "0.1.0"
edition = "2021"
publish = false

[dependencies]
actix-web = { version = "4", default-features = false, features = ["macros"] }
hostname = "0.4"
log = "0.4"
reqwest = { version = "0.12", default-features = false }
tokio = { version = "1", features = ["macros", "net", "rt-multi-thread", "signal", "sync", "time"] }
url = "2"
uuid = { version = "1", features = ["v4"] }
