[package]
name = "csma_ca_simulation"
version = "0.1.0"
edition = "2021"
publish = false

[dependencies]
rand = "0.10"
anyhow = "1"
clap = { version = "4", features = ["derive"] }
crossterm = "0.29"
csv = "1"
serde = { version = "1", features = ["derive"] }
ratatui = "0.29"
plotters = { version = "0.3", default-features = false, features = ["bitmap_backend", "bitmap_encoder", "line_series", "ab_glyph"] }
