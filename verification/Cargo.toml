[package]
name = "voicechat"
version = "0.1.0"
edition = "2021"
publish = false

[dependencies]
evdev = "0.12"
hound = "3.5"
libc = "0.2"
signal-hook = "0.3"
ureq = "2"
