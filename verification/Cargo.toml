[package]
name = "imaging_lib"
version = "0.1.0"
edition = "2021"
publish = false

[dependencies]
clap = { version = "4", features = ["derive"] }
csv = "1"
futures = "0.3"
image = "0.24"
itertools = "0.10"
kmeans_colors = "*"
libR-sys = "*"
log = "0.4"
palette = "*"
rayon = "1"
reqwest = "0.11"
serde = { version = "1", features = ["derive"] }
simple_logger = "4"
tokio = { version = "1", features = ["rt-multi-thread", "time"] }
tokio-stream = { version = "0.1", features = ["time"] }
zip = "0.6"
