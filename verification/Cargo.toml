[package]
name = "kernel_memory"
version = "0.1.0"
edition = "2021"
publish = false

[dependencies]
linked_list_allocator = "0.10"
multiboot2 = "*"
spin = "0.9"
volatile = "0.2"
x86_64 = { version = "0.15", default-features = false, features = ["instructions"] }
