[package]
name = "encrypted_backup"
version = "0.1.0"
edition = "2021"
publish = false

[dependencies]
aes-gcm = "0.10"
sha2 = "0.10"
clap = { version = "4", features = ["derive"] }
glob = "0.3"
tar = "0.4"
tempfile = "3"
rpassword = "7"
log = "0.4"
chrono = "0.4"

[dev-dependencies]
rand = "0.8"
