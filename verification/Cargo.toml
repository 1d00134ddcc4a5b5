[package]
name = "coddog"
version = "0.1.0"
edition = "2021"
publish = false

[dependencies]
editdistancek = "=1.0.2"
object = { version = "=0.40.0", features = ["write"] }
mapfile_parser = "=2.13.2"
rabbitizer = "=1.16.2"
powerpc = "=0.4.1"
unarm = "=1.9.2"
blake3 = "=1.8.7"
