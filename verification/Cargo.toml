[package]
name = "kolibri"
version = "0.1.0"
edition = "2021"
publish = false

[dependencies]
display-interface = "0.5"
display-interface-i2c = "0.5"
embassy-executor = "0.10"
embassy-futures = "*"
embassy-sync = "0.8"
embassy-time = "0.5"
embedded-graphics = "0.8"
embedded-hal = "1"
embedded-hal-async = "1"
embedded-storage = "*"
esp-backtrace = { version = "0.20", features = ["esp32c3", "panic-handler", "println"] }
esp-bootloader-esp-idf = { version = "0.6", features = ["esp32c3"] }
esp-hal = { version = "1.2", features = ["esp32c3", "unstable"] }
esp-println = { version = "0.18", features = ["esp32c3", "log-04"] }
esp-rtos = { version = "0.4", features = ["esp32c3", "embassy"] }
log = "0.4"
oled_async = "*"
