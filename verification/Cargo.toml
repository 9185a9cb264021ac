[package]
name = "dew-firmware"
version = "0.1.0"
edition = "2021"
publish = false

[dependencies]
embedded-graphics = "0.8"
embassy-executor = "0.9"
esp-alloc = "0.9"
esp-backtrace = { version = "0.18", features = ["esp32s3", "panic-handler", "println"] }
esp-bootloader-esp-idf = { version = "0.4", features = ["esp32s3"] }
esp-hal = { version = "~1.0", features = ["esp32s3", "unstable"] }
esp-println = { version = "0.16", features = ["esp32s3", "log-04"] }
esp-rtos = { version = "0.2", features = ["esp32s3", "embassy"] }
log = "0.4"
