[package]
name = "oxide"
version = "0.1.0"
edition = "2021"
publish = false

[dependencies]
x86_64 = { version = "=0.15.5", default-features = false, features = ["instructions"] }
spin = "=0.12.3"
lazy_static = { version = "=1.5.1", features = ["spin_no_std"] }
bootloader_api = "=0.11.17"
pc-keyboard = "=0.9.0"
pic8259 = "=0.11.0"
uart_16550 = "=0.9.0"
linked_list_allocator = "=0.10.6"
noto-sans-mono-bitmap = "=0.4.0"
ovmf-prebuilt = "=0.2.9"
