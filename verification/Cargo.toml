[package]
name = "bailey"
version = "0.1.0"
edition = "2021"
publish = false

[dependencies]
toml = "*"
sha2 = "*"
serde = { version = "1", features = ["derive"] }
serde_json = "1"
clap = { version = "4", features = ["derive"] }
clap_complete = "4"
clap_mangen = "*"
anyhow = "1"
thiserror = "*"
libc = "0.2"
nix = { version = "*", features = ["sched", "mount", "fs", "user", "process", "signal"] }
landlock = "*"
seccompiler = "*"
enumflags2 = "*"
bitflags = "2"
bytemuck = { version = "1", features = ["derive"] }
