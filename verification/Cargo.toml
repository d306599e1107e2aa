[package]
name = "news"
version = "0.1.0"
edition = "2021"
publish = false

[dependencies]
url = "=2.5.8"
validator = "=0.21.0"
chrono = { version = "=0.4.45", features = ["serde"] }
chrono-humanize = "=0.2.3"
serde = { version = "=1.0.229", features = ["derive"] }
thiserror = "=2.0.21"
typed-builder = "=0.23.2"
comrak = { version = "=0.57.0", default-features = false, features = ["syntect-fancy", "bon"] }
leptos = { version = "=0.8.22", features = ["ssr"] }
leptos_meta = { version = "=0.8.7", features = ["ssr"] }
leptos_router = { version = "=0.8.17", features = ["ssr"] }
leptos_axum = "=0.8.10"
web-sys = { version = "=0.3.106", features = ["Document", "VisibilityState"] }
axum = { version = "=0.8.9", features = ["macros"] }
tokio = { version = "=1.54.1", features = ["rt-multi-thread", "macros", "net", "time"] }
sqlx = { version = "=0.9.0", default-features = false, features = ["postgres", "chrono", "runtime-tokio", "migrate"] }
opentelemetry = "=0.33.1"
opentelemetry_sdk = "=0.33.1"
opentelemetry-stdout = "=0.33.1"
