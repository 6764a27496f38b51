[package]
name = "dashboard-app"
version = "0.1.0"
edition = "2021"
publish = false

[dependencies]
actix-web = { version = "4", default-features = false, features = ["macros"] }
cfg-if = "1"
charts-rs = { version = "*", default-features = false }
chrono = "0.4"
leptos = { version = "0.6", features = ["ssr"] }
leptos_actix = "0.6"
leptos_meta = { version = "0.6", features = ["ssr"] }
leptos_router = { version = "0.6", features = ["ssr"] }
num-format = "0.4"
once_cell = "1"
serde = { version = "1", features = ["derive"] }
thiserror = "1"
uuid = { version = "1", features = ["v4"] }
validator = { version = "*", features = ["derive"] }
