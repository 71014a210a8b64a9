[package]
name = "sms_pdu"
version = "0.1.0"
edition = "2021"
publish = false

[dependencies]
chrono = "*"
framebuffer = "*"
