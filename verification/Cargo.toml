[package]
name = "promrail"
version = "0.1.0"
edition = "2021"
publish = false

[dependencies]
clap = { version = "4", features = ["derive", "env"] }
console = "*"
dirs = "*"
fern = "*"
git2 = "*"
glob-match = "*"
globset = "*"
log = "0.4"
regex = "1"
serde = { version = "1", features = ["derive"] }
serde_json = "1"
serde_yaml = "0.9"
thiserror = "*"
time = { version = "0.3", features = ["formatting"] }
walkdir = "2"
