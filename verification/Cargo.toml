[package]
name = "glenda"
version = "0.1.0"
edition = "2021"
publish = false

[dependencies]
spin = "0.9"
riscv = "*"
fdt = "0.1"
bitflags = "2"
