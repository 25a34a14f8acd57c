[package]
name = "biome_r_parser"
version = "0.1.0"
edition = "2021"
publish = false

[dependencies]
biome_parser = "=0.5.8"
biome_rowan = "=0.5.8"
biome_string_case = "=0.5.8"
biome_unicode_table = "=0.7.0"
rustc-hash = "=2.1.3"
serde = { version = "=1.0.229", features = ["derive"] }
smallvec = "=1.16.4"
tracing = "=0.1.44"
tree-sitter = "=0.27.1"
tree-sitter-r = "=1.3.0"
