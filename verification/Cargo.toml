[package]
name = "servirtium"
version = "0.1.0"
edition = "2021"
publish = false

[dependencies]
regex = "1"
hyper = { version = "0.14", features = ["server", "client", "http1", "tcp"] }
tokio = { version = "1", default-features = false, features = ["rt-multi-thread"] }
async-trait = "0.1"
reqwest = { version = "0.11", default-features = false, features = ["blocking"] }
quick-xml = { version = "*", features = ["serialize"] }
serde = { version = "1", features = ["derive"] }
