[package]
name = "rust_os"
version = "0.1.0"
edition = "2021"
publish = false

[dependencies]
x86_64 = { version = "=0.14.13", default-features = false, features = ["instructions"] }
bootloader = { version = "=0.9.35", features = ["map_physical_memory"] }
spin = "=0.5.2"
linked_list_allocator = { version = "=0.9.1", default-features = false, features = ["use_spin"] }
