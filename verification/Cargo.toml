[package]
name = "compiler_diagnostics"
version = "0.1.0"
edition = "2021"
publish = false

[dependencies]
codemap = "0.1"
codemap-diagnostic = "0.1"
proc-macro2 = { version = "1", features = ["span-locations"] }
quote = "1"
thiserror = "1"
