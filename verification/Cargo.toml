[package]
name = "libkernel"
version = "0.1.0"
edition = "2021"
publish = false

[dependencies]
multiboot2 = { version = "=0.28.0", default-features = false }
x86_64 = { version = "=0.15.5", default-features = false, features = ["instructions"] }
spin = "=0.12.3"
lazy_static = { version = "=1.5.1", features = ["spin_no_std"] }
