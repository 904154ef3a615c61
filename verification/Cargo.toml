[package]
name = "arboretum"
version = "0.1.0"
edition = "2021"
publish = false

[dependencies]
axum = "=0.8.9"
camino = "=1.2.6"
chrono = "=0.4.45"
chrono-tz = "=0.10.4"
clap = { version = "=4.6.7", features = ["derive"] }
crossterm = "=0.29.0"
data-encoding = "=2.11.1"
hex = "=0.4.3"
mime_guess = "=2.0.5"
opentelemetry-proto = { version = "=0.33.1", default-features = false, features = ["gen-tonic-messages", "logs", "trace"] }
prost = "=0.14.4"
ratatui = "=0.30.2"
reqwest = { version = "=0.13.5", default-features = false, features = ["json"] }
rust-embed = { version = "=8.13.0", features = ["interpolate-folder-path"] }
serde = { version = "=1.0.229", features = ["derive"] }
serde_json = "=1.0.154"
systemd-connector = "=0.1.0"
thiserror = "=2.0.21"
tokio = { version = "=1.54.1", features = ["full"] }
tokio-rusqlite = "=0.6.1"
toml = "=1.2.1"
tower = "=0.5.3"
tower-http = { version = "=0.7.1", features = ["cors", "trace"] }
tracing = "=0.1.44"
tracing-subscriber = { version = "=0.3.23", features = ["env-filter"] }
tui-input = "=0.15.5"
