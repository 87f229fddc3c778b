[package]
name = "dam"
version = "0.6.0"
edition = "2021"
publish = false

[dependencies]
chrono = "*"
clap = { version = "*", features = ["derive"] }
flate2 = "*"
glob = "*"
reqwest = { version = "*", default-features = false, features = ["blocking", "json", "rustls-tls"] }
rpassword = "*"
serde = { version = "*", features = ["derive"] }
serde_json = "*"
sha2 = "*"
tar = "*"
toml = "*"
walkdir = "*"
windows-sys = { version = "*", features = ["Win32_Foundation", "Win32_System_Console"] }
zip = "*"
