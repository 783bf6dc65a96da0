[package]
name = "ytm-core"
version = "0.1.0"
edition = "2021"
publish = false

[dependencies]
anyhow = "1"
ctrlc = "3"
dirs = "*"
inquire = "*"
jpeg-decoder = "0.3"
libmpv2 = "*"
log = "0.4"
open = "*"
rand = "0.8"
ratatui = "*"
reqwest = { version = "0.12", default-features = false, features = ["json", "rustls-tls"] }
serde = { version = "1", features = ["derive"] }
serde_json = "1"
simplelog = "*"
thiserror = "2"
throbber-widgets-tui = "*"
tokio = { version = "1", features = ["rt-multi-thread", "time"] }
toml = "*"
toml_edit = "*"
unicode-width = "*"
ytmusicapi = "*"
