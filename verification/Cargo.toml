[package]
name = "adafruit-7segment"
version = "0.1.0"
edition = "2021"
publish = false

[dependencies]
ascii = "1"
embedded-hal = "0.2"
ht16k33 = "0.4"

[dev-dependencies]
embedded-hal-mock = "0.7"
