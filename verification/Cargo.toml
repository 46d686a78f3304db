[package]
name = "mocca_matrix"
version = "0.1.0"
edition = "2021"
publish = false

[dependencies]
smart-leds = "=0.4.0"
bitset-core = "=0.1.1"
micromath = "=2.1.0"
num-traits = { version = "=0.2.19", default-features = false, features = ["libm"] }
rand = { version = "=0.8.8", default-features = false, features = ["small_rng"] }
defmt = "=0.3.101"
static_cell = "=2.1.1"
critical-section = { version = "=1.2.0", features = ["std"] }
embassy-sync = { version = "=0.6.2", features = ["defmt"] }
embassy-time = { version = "=0.4.0", features = ["defmt", "defmt-timestamp-uptime"] }
embassy-executor = { version = "=0.7.0", features = ["arch-std", "executor-thread", "defmt"] }
fixed = "=1.31.0"
pio = "=0.2.1"
pio-proc = "=0.2.2"
cortex-m-rt = "=0.7.7"
defmt-rtt = "=0.4.2"
panic-probe = { version = "=0.3.2", features = ["print-defmt"] }
