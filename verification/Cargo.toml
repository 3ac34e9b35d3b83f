[package]
name = "sigo"
version = "0.1.0"
edition = "2021"
publish = false

[dependencies]
chrono = "0.4"
clap = { version = "4", features = ["derive"] }
confy = "0.6"
serde = { version = "1", features = ["derive"] }
strum = { version = "0.26", features = ["derive"] }
tabled = "0.15"
terminal_size = "0.3"
xdg = "2"
