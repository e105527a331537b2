[package]
name = "jchtools"
version = "0.1.0"
edition = "2021"
publish = false

[dependencies]
anyhow = "1"
blake3 = { version = "1", features = ["pure"] }
chrono = "0.4"
clap = { version = "4", features = ["derive"] }
ctrlc = "3"
directories-next = "2"
flate2 = "1"
fs2 = "0.4"
globset = "0.4"
hex = "0.4"
libc = "0.2"
libloading = "0.8"
open = "5"
rayon = "1"
rusqlite = { version = "0.32", features = ["bundled"] }
serde = { version = "1", features = ["derive"] }
serde_json = "1"
sha2 = "0.10"
strsim = "0.11"
unicode-normalization = "0.1"
uuid = { version = "1", features = ["v4"] }
walkdir = "2"
