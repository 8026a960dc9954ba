[package]
name = "x86_kernel"
version = "0.1.0"
edition = "2021"
publish = false

[dependencies]
bootloader = { version = "=0.9.35", features = ["map_physical_memory"] }
lazy_static = "=1.5.1"
pc-keyboard = "=0.9.0"
spin = "=0.12.3"
uart_16550 = "=0.8.1"
volatile = "=0.6.1"
x86_64 = { version = "=0.15.5", default-features = false, features = ["instructions"] }
