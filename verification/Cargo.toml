[package]
name = "stage_alts"
version = "0.1.0"
edition = "2021"
publish = false

[dependencies]
hash40 = "=1.3.1"
log = "=0.4.34"
once_cell = "=1.21.4"
owo-colors = "=4.4.0"
parking_lot = "=0.12.5"
prc-rs = "=1.6.1"
rand = "=0.8.8"
rlua-lua53-sys = "=0.1.7"
skyline = "=0.6.0"
smash-arc = { version = "=0.6.0", features = ["nozstd"] }
