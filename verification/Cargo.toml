[package]
name = "vilmos_assembler"
version = "0.1.0"
edition = "2021"
publish = false

[dependencies]
rand = "0.8"
argparse = "0.2"
ini = "1"
png = "0.17"
