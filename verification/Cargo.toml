[package]
name = "btrfs_fuzz"
version = "0.1.0"
edition = "2021"
publish = false

[dependencies]
anyhow = "1"
crc32c = "=0.6.8"
fuzzmutator = "=0.2.1"
libc = "0.2"
loopdev = "=0.2.2"
nix = "=0.19.1"
rmp-serde = "=1.3.1"
serde = { version = "1", features = ["derive"] }
static_assertions = "1"
structopt = "0.3"
sys-mount = "=1.2.1"
zstd = "=0.14.3"
