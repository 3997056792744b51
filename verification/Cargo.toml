[package]
name = "goofy_os"
version = "0.1.0"
edition = "2021"
publish = false

[dependencies]
x86_64 = "0.15"
spin = "0.9"
lazy_static = "1"
pc-keyboard = "*"
ps2-mouse = "*"
crossbeam-queue = "0.3"
conquer-once = "*"
raw-cpuid = "11"
ovmf-prebuilt = "*"
