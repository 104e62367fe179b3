[package]
name = "control_app"
version = "0.1.0"
edition = "2021"
publish = false

[dependencies]
embedded-hal = "1.0"
embedded-hal-bus = "0.2"
linux-embedded-hal = "0.4"
gpiocdev-embedded-hal = "0.1"
mipidsi = "0.9"
embedded-graphics = "0.8"
clap = { version = "4", features = ["cargo"] }
ctrlc = "3"
serialport = { version = "4", default-features = false }
