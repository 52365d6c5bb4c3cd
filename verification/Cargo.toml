[package]
name = "lorebook"
version = "0.1.0"
edition = "2021"
publish = false

[dependencies]
serde = { version = "=1.0.229", features = ["derive"] }
serde_json = "=1.0.154"
percent-encoding = "=2.3.2"
anyhow = "=1.0.104"
tokio = { version = "=1.54.1", features = ["rt-multi-thread", "time"] }
reqwest = { version = "=0.12.28", default-features = false, features = ["json", "rustls-tls"] }
governor = { version = "=0.6.3", default-features = false, features = ["std"] }
rusqlite = { version = "=0.32.1", features = ["bundled"] }
directories = "=6.0.0"
tracing = "=0.1.44"
tracing-subscriber = { version = "=0.3.23", default-features = false, features = ["fmt", "std"] }
parking_lot = "=0.12.5"
once_cell = "=1.21.4"
eframe = { version = "=0.31.1", default-features = false, features = ["default_fonts", "glow", "x11"] }
catppuccin-egui = { version = "=5.5.0", default-features = false, features = ["egui31"] }
