[package]
name = "mostro_cli"
version = "0.1.0"
edition = "2021"
publish = false

[dependencies]
anyhow = "*"
clap = { version = "*", features = ["derive"] }
lightning-invoice = "=0.34.1"
lnurl-rs = { version = "=0.10.0", default-features = false }
nostr = { version = "=0.45.5", features = ["nip44"] }
nostr-sdk = "=0.45.4"
pretty_env_logger = "*"
rand = { version = "0.8", features = ["std", "std_rng"] }
tokio = { version = "*", features = ["macros", "rt-multi-thread"] }
uuid = "*"
