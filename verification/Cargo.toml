[package]
name = "worktree_sessions"
version = "0.1.0"
edition = "2021"
publish = false

[dependencies]
anyhow = "1"
async-channel = "2"
async-process = "2"
chrono = { version = "0.4", default-features = false, features = ["clock", "std", "alloc"] }
futures = "0.3"
ignore = "0.4"
log = "0.4"
rand = "0.9"
serde_json = "1"
uuid = { version = "1", features = ["v4"] }
which = "6"
