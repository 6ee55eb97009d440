[package]
name = "fbtouch"
version = "0.1.0"
edition = "2021"
publish = false

[dependencies]
evdev = "*"
flume = "*"
framebuffer = "*"
image = "*"
libc = "*"
rand = "*"
