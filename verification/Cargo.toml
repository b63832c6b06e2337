[package]
name = "apple_notes_cli"
version = "0.1.0"
edition = "2021"
publish = false

[dependencies]
anyhow = "*"
clap = { version = "*", features = ["derive"] }
comfy-table = "*"
comrak = "*"
crossbeam-channel = "*"
flate2 = "*"
html2md = "*"
indicatif = "*"
libc = "*"
rusqlite = { version = "*", features = ["bundled"] }
sanitize-filename = "*"
serde = { version = "*", features = ["derive"] }
serde_json = "*"
termimad = "*"
terminal_size = "*"
time = { version = "*", features = ["formatting", "parsing"] }
unicode-width = "*"
