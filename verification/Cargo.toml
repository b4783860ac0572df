[package]
name = "boe_completo"
version = "0.1.0"
edition = "2021"
publish = false

[dependencies]
lopdf = "*"
reqwest = { version = "*", default-features = false }
scraper = "*"
tokio = { version = "*", features = ["macros", "rt-multi-thread", "time"] }
futures = "*"
