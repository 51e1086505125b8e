[package]
name = "asmdoc"
version = "0.1.0"
edition = "2021"
publish = false

[dependencies]
anyhow = "=1.0.104"
argh = "=0.1.19"
inform = "=0.2.3"
linked-hash-map = "=0.5.6"
walkdir = "=2.5.0"
