[package]
name = "page_context"
version = "0.1.0"
edition = "2021"
publish = false

[dependencies]
serde_json = "1"
handlebars = { version = "6", features = ["dir_source"] }
actix-web = "4"
env_logger = "0.11"
tokio = { version = "1", features = ["fs", "macros", "rt-multi-thread"] }
