[package]
name = "mineardmg"
version = "0.1.0"
edition = "2021"
publish = false

[dependencies]
anyhow = "=1.0.104"
bytes = "=1.12.1"
cliclack = "=0.5.6"
concurrent-queue = "=2.5.0"
dashmap = "=6.2.1"
reqwest = { version = "=0.12.28", features = ["blocking", "json"] }
rfd = { version = "=0.17.2", default-features = false, features = ["xdg-portal"] }
serde = { version = "=1.0.229", features = ["derive"] }
serde_json = "=1.0.154"
vorbis_rs = "=0.5.6"
zip = { version = "=9.1.0", default-features = false, features = ["deflate"] }
