[package]
name = "tictactoe"
version = "0.1.0"
edition = "2021"

[dependencies]
pico-args = "0.5"
regex = "1"
