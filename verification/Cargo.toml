[package]
name = "hsl_weever"
version = "0.1.0"
edition = "2021"
publish = false

[dependencies]
url = "=2.5.8"
rustc-serialize = "=0.3.25"
chrono = "=0.4.45"
clap = "=4.6.7"
