[package]
name = "picopb"
version = "0.1.0"
edition = "2021"
publish = false

[dependencies]
leb128 = "0.2"
convert_case = "0.6"
rand = "0.8"
bytes = "1"
pest = "2"
pest_derive = "2"
clap = { version = "4", features = ["derive"] }
