[package]
name = "zen-metrics"
version = "0.1.0"
edition = "2021"
publish = false

[dependencies]
serde_json = "=1.0.154"
csv = "=1.4.0"
serde = { version = "=1.0.229", features = ["derive"] }
anyhow = "=1.0.104"
clap = { version = "=4.6.7", features = ["derive", "env"] }
rayon = "=1.12.0"
tempfile = "=3.27.0"
enough = "=0.4.5"
almost-enough = "=0.4.5"
rgb = "=0.8.53"
imgref = "=1.12.3"
zencodec = "=0.1.26"
zenpixels = "=0.2.16"
zenpixels-convert = "=0.2.16"
zenpng = "=0.1.4"
zenjpeg = { version = "=0.8.4", features = ["zencodec", "trellis"] }
zenwebp = "=0.4.6"
zenavif = { version = "=0.1.6", features = ["encode"] }
zenjxl = { version = "=0.2.1", features = ["zencodec", "__expert"] }
jxl-encoder = { version = "=0.3.4", features = ["__expert", "ssim2-loop", "zensim-loop"] }
fast-ssim2 = { version = "=0.9.1", features = ["imgref"] }
dssim-core = "=3.5.1"
butteraugli = "=0.9.3"
zensim = { version = "=0.2.7", features = ["training"] }
parquet = { version = "=60.1.0", default-features = false, features = ["arrow", "snap", "zstd"] }
arrow-array = "=60.1.0"
arrow-schema = "=60.1.0"
tokio = { version = "=1.54.1", features = ["rt", "macros", "time"] }
reqwest = { version = "=0.13.5", default-features = false, features = ["json"] }
image = { version = "=0.25.10", default-features = false, features = ["exr"] }
