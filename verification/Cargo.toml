[package]
name = "recall"
version = "0.1.0"
edition = "2021"
publish = false

[dependencies]
base64 = "0.22"
chrono = "0.4"
ical = "0.11"
once_cell = "1"
rrule = "0.13"
rusqlite = { version = "0.32", features = ["bundled"] }
serde = { version = "1", features = ["derive"] }
serde_json = "1"
ureq = "3"
urlencoding = "2"
uuid = { version = "1", features = ["v4", "v5"] }
