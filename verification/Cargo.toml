[package]
name = "wfinfo"
version = "0.1.0"
edition = "2021"
publish = false

[dependencies]
anyhow = "1"
clap = { version = "4", features = ["derive"] }
env_logger = "*"
global-hotkey = "*"
image = { version = "0.25", default-features = false, features = ["png"] }
levenshtein = "1"
log = "0.4"
notify = "4"
palette = "0.7"
reqwest = { version = "*", default-features = false, features = ["blocking"] }
serde = { version = "1", features = ["derive"] }
serde_json = "1"
tesseract = "*"
xcap = "*"
