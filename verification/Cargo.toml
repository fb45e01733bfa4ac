[package]
name = "times_table"
version = "0.1.0"
edition = "2021"
publish = false

[dependencies]
macroquad = "*"
rust_decimal = "*"
rust_decimal_macros = "*"
