[package]
name = "amoeba_cli"
version = "0.1.0"
edition = "2021"
publish = false

[dependencies]
arrayvec = "=0.7.8"
num = "=0.4.3"
ncurses = "=5.98.0"
