[package]
name = "sam2fasta"
version = "0.1.0"
edition = "2021"
publish = false

[dependencies]
clap = "*"
noodles-fasta = "*"
noodles-sam = "*"
