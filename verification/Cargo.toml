[package]
name = "blog_os"
version = "0.1.0"
edition = "2021"
publish = false

[dependencies]
linked_list_allocator = { version = "0.10", default-features = false }
spin = "0.9"
