[package]
name = "mvtime"
version = "0.1.0"
edition = "2021"
publish = false

[dependencies]
chrono = "0.4"
clap = "3.2"
crossterm = "0.25"
directories = "4"
eyre = "0.6"
notify = "5"
ron = "0.8"
serde = { version = "1", features = ["derive"] }
simple-eyre = "0.3"
tui = { version = "0.19", features = ["serde"] }
