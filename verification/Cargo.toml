[package]
name = "live_poly_trans"
version = "0.1.0"
edition = "2021"
publish = false

[dependencies]
anyhow = "1"
base64 = "0.22"
chrono = "0.4"
serde = { version = "1", features = ["derive"] }
serde_json = "1"
hound = "3.5"
rtrb = "0.3"
rubato = "*"
ureq = { version = "2", features = ["json"] }
tungstenite = "*"
libloading = "0.8"
cpal = "*"
