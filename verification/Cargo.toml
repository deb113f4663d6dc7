[package]
name = "lcd_lcm1602"
version = "0.1.0"
edition = "2021"
publish = false

[dependencies]
embedded-hal = "1"
ufmt-write = "0.1"
