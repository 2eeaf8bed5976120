[package]
name = "deadbolt"
version = "0.1.0"
edition = "2021"
publish = false

[dependencies]
regex = "1"
clap = "4"
colored = "2"
getch = "0.3"
