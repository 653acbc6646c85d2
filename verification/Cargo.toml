[package]
name = "aether"
version = "0.1.0"
edition = "2021"
publish = false

[dependencies]
bootloader = { version = "=0.9.35", features = ["map_physical_memory"] }
conquer-once = { version = "0.3", default-features = false }
crossbeam-queue = "=0.3.14"
futures-util = { version = "0.3", default-features = false, features = ["alloc"] }
pc-keyboard = "=0.9.0"
pic8259 = { version = "=0.10.4", default-features = false, features = ["stable"] }
spin = "0.9"
uart_16550 = "0.2"
x86_64 = { version = "=0.14.13", default-features = false, features = ["instructions"] }
