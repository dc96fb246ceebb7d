[package]
name = "spectrum_bars"
version = "0.1.0"
edition = "2021"
publish = false

[dependencies]
clap = { version = "4", features = ["derive"] }
lazy-regex = "3"
symphonia = "0.5"
