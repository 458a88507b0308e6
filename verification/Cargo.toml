[package]
name = "video_encoding_wrapper"
version = "0.1.0"
edition = "2021"
publish = false

[dependencies]
anyhow = "=1.0.104"
av-metrics = "=0.9.1"
av-metrics-decoders = "=0.3.2"
av-scenechange = { version = "=0.24.1", default-features = false, features = ["threading"] }
base16ct = { version = "=1.0.0", features = ["alloc"] }
clap = { version = "=4.6.7", features = ["derive"] }
crossbeam-queue = "=0.3.14"
indicatif = "=0.18.6"
number_prefix = "=0.4.0"
plotters = { version = "=0.3.7", default-features = false, features = ["svg_backend", "line_series"] }
prettytable-rs = "=0.10.0"
rayon = "=1.12.0"
serde = { version = "=1.0.229", features = ["derive"] }
serde_json = "=1.0.151"
sha2 = "=0.11.0"
ssimulacra2 = "=0.5.1"
statrs = "=0.19.1"
tracing = "=0.1.44"
tracing-error = "=0.2.1"
tracing-subscriber = { version = "=0.3.23", features = ["env-filter"] }
y4m = "=0.8.0"
