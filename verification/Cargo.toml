[package]
name = "perf_dashboard"
version = "0.1.0"
edition = "2021"
publish = false

[dependencies]
csv = "1"
serde = { version = "1", features = ["derive"] }
sqlx = { version = "0.8", default-features = false, features = ["postgres", "runtime-tokio"] }
actix-web = { version = "4", default-features = false, features = ["macros"] }
actix-files = "0.6"
tokio = { version = "1", features = ["macros", "rt-multi-thread"] }
thiserror = "1"
anyhow = "1"
log = "0.4"
pretty_env_logger = "0.5"
dotenv = "0.15"
