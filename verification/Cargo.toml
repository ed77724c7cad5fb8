[package]
name = "sentence_pipeline"
version = "0.1.0"
edition = "2021"
publish = false

[dependencies]
alpino-tokenizer = "=0.4.0"
anyhow = "=1.0.104"
async-std = { version = "=1.13.2", features = ["attributes"] }
async-trait = "=0.1.92"
clap = "=2.34.0"
conllu = "=0.8.0"
futures = "=0.3.34"
indexmap = { version = "=1.9.3", features = ["serde-1"] }
log = "=0.4.34"
rayon = "=1.12.0"
serde = { version = "=1.0.229", features = ["derive"] }
serde_yaml = "=0.8.26"
syntaxdot = "=0.5.0"
syntaxdot-encoders = "=0.5.0"
syntaxdot-tch-ext = "=0.5.0"
syntaxdot-tokenizers = "=0.5.0"
tch = { version = "=0.11.0", default-features = false }
tide = "=0.16.0"
udgraph = "=0.8.0"
unicode-normalization = "=0.1.26"
