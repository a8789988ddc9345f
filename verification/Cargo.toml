[package]
name = "serial_console"
version = "0.1.0"
edition = "2021"
publish = false

[dependencies]
embedded-cli = "*"
embedded-io = "0.6"
cortex-m-rt = "0.7"
defmt = "*"
defmt-rtt = "*"
panic-probe = { version = "*", features = ["print-defmt"] }
stm32f3xx-hal = { version = "*", features = ["stm32f303xc"] }
