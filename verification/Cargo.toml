[package]
name = "imgchest_sync"
version = "0.1.0"
edition = "2021"
publish = false

[dependencies]
sha2 = "=0.10.9"
base16ct = { version = "=1.0.0", features = ["alloc"] }
anyhow = "*"
argh = "*"
camino = "*"
toml_edit = "*"
directories = "*"
opener = "*"
regex = "*"
rayon = "*"
tokio = { version = "*", features = ["rt-multi-thread", "fs", "macros", "sync", "io-util"] }
