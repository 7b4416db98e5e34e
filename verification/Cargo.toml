[package]
name = "pangea_kernel"
version = "0.1.0"
edition = "2021"
publish = false

[dependencies]
font8x8 = { version = "*", default-features = false }
x86_64 = { version = "*", default-features = false, features = ["instructions"] }
limine = "*"
pc-keyboard = "*"
pic8259 = "*"
spin = "*"
lazy_static = { version = "*", features = ["spin_no_std"] }
