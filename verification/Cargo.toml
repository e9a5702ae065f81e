[package]
name = "blurhash_batch"
version = "0.1.0"
edition = "2021"
publish = false

[dependencies]
clap = { version = "4", features = ["derive"] }
futures = "0.3"
image = { version = "0.25", default-features = false, features = ["bmp", "gif", "jpeg", "png", "tiff"] }
num_cpus = "1"
tokio = { version = "1", features = ["fs", "macros", "rt-multi-thread", "sync"] }
