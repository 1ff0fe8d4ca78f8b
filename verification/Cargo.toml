[package]
name = "password_vault"
version = "0.1.0"
edition = "2021"
publish = false

[dependencies]
sha2 = "0.10"
rust-crypto = "0.2.36"
rand = "0.8"
base64 = "0.21"
hex = "0.4"
rusqlite = { version = "0.31", features = ["bundled"] }
serde = { version = "1", features = ["derive"] }
reqwest = { version = "0.12", default-features = false, features = ["json"] }
clipboard = "0.5"
eframe = { version = "0.28", default-features = false, features = ["glow", "default_fonts"] }
egui = { version = "0.28", default-features = false }
