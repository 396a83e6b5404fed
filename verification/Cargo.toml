[package]
name = "rustfmt_core"
version = "0.1.0"
edition = "2021"
publish = false

[dependencies]
regex = "1"
unicode-segmentation = "1"
diff = "0.1"
ignore = "0.4"
strings = "0.1"
term = "0.7"
getopts = "0.2"
rustc-serialize = "0.3"
structopt = "0.3"
thiserror = "1"
anyhow = "1"
env_logger = "0.9"
log = "0.4"
libc = "0.2"
