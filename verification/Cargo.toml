[package]
name = "lcd_draw"
version = "0.1.0"
edition = "2021"
publish = false

[dependencies]
font-rs = "*"
stb_truetype = "*"
