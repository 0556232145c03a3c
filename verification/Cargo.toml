[package]
name = "rustyrouter"
version = "0.1.0"
edition = "2021"
publish = false

[dependencies]
chrono = "0.4"
dhcproto = "*"
dns-parser = "0.8"
evdev = { version = "0.12", features = ["tokio"] }
flate2 = "1"
futures-util = "0.3"
ipnet = "2"
libc = "0.2"
lzma-rs = "0.3"
nix = { version = "0.30", features = ["feature", "kmod", "mount", "net", "process", "reboot", "signal", "socket", "time"] }
pnet = "0.35"
rand = "0.9"
rsntp = { version = "4", features = ["chrono"] }
rtnetlink = "*"
rustables = "*"
ruzstd = "0.8"
socket2 = { version = "0.6", features = ["all"] }
tokio = { version = "1", features = ["full"] }
