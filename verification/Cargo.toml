[package]
name = "rustodo"
version = "0.1.0"
edition = "2021"
publish = false

[dependencies]
uuid = { version = "*", features = ["v4"] }
chrono = "*"
prettytable-rs = "*"
clap = { version = "*", features = ["derive"] }
tokio = { version = "*", features = ["macros", "rt-multi-thread"] }
sqlx = { version = "*", default-features = false, features = ["sqlite", "runtime-tokio"] }
dotenvy = "*"
futures-util = "*"
thiserror = "*"
serde = { version = "*", features = ["derive"] }
