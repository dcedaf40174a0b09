[package]
name = "kernel_mm"
version = "0.1.0"
edition = "2021"
publish = false

[dependencies]
bit-vec = "=0.6.3"
bootloader = "=0.9.35"
spin = "=0.9.9"
x86_64 = "=0.15.5"
pc-keyboard = "=0.7.0"
