[package]
name = "playground_os_rust"
version = "0.1.0"
edition = "2021"
publish = false

[dependencies]
bootloader = "=0.9.35"
crossbeam-queue = "=0.2.3"
linked_list_allocator = { version = "=0.9.1", default-features = false, features = ["use_spin"] }
pc-keyboard = "=0.5.1"
pic8259 = { version = "=0.10.4", default-features = false }
spin = "=0.9.9"
x86_64 = { version = "=0.14.13", default-features = false, features = ["instructions"] }
