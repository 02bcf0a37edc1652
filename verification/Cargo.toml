[package]
name = "ddboline_scripts"
version = "0.1.0"
edition = "2021"
publish = false

[dependencies]
anyhow = "1"
checksums = "*"
clap = { version = "4", features = ["derive"] }
dirs = "*"
dotenvy = "0.15"
envy = "0.4"
log = "0.4"
rand = "0.9"
serde = { version = "1", features = ["derive"] }
smallvec = "1"
stack-string = "*"
stdout-channel = "*"
time = { version = "0.3", features = ["formatting", "macros"] }
time-tz = { version = "*", features = ["system"] }
tokio = { version = "1", features = ["full"] }
