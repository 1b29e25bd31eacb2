[package]
name = "solstice"
version = "0.1.0"
edition = "2021"
publish = false

[dependencies]
alloy-primitives = { version = "=0.8.26", default-features = false, features = ["std", "serde"] }
arbitrary = "=1.5.0"
clap = { version = "4", default-features = false, features = ["std", "derive", "help", "usage", "error-context"] }
dap = "=0.4.1-alpha1"
env_logger = { version = "0.11", default-features = false }
eyre = "0.6"
foundry-compilers = { version = "=0.11.6", default-features = false }
hex = "=0.4.3"
num-traits = "=0.2.19"
rust-lapper = "=1.3.0"
serde = { version = "1", features = ["derive"] }
serde_json = "1"
solang-parser = "=0.3.3"
tokio = { version = "1", features = ["rt-multi-thread", "macros", "net", "sync", "io-util"] }
tower-lsp = { version = "0.20", default-features = false, features = ["runtime-tokio"] }
tracing = "0.1"
