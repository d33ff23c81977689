[package]
name = "easy_scrape"
version = "0.1.0"
edition = "2021"
publish = false

[dependencies]
scraper = "*"
rand = "0.9"
tokio = { version = "*", features = ["full"] }
reqwest = { version = "*", default-features = false }
async-trait = "*"
unicode-width = "*"
