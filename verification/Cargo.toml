[package]
name = "fmcl_core"
version = "0.1.0"
edition = "2021"
publish = false

[dependencies]
anstyle = "*"
base64 = "*"
chrono = "*"
ctrlc = "*"
fern = "*"
hotwatch = "*"
log = "*"
serde_json = "*"
