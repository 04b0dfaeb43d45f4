[package]
name = "batch_translate"
version = "0.1.0"
edition = "2021"
publish = false

[dependencies]
clap = { version = "*", features = ["derive"] }
csv = "*"
icu_locale_core = "*"
reqwest = { version = "*", default-features = false, features = ["json"] }
serde = { version = "*", features = ["derive"] }
serde_json = "*"
spreadsheet-ods = "*"
tokio = { version = "*", features = ["macros", "rt-multi-thread", "time"] }
