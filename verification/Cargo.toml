[package]
name = "edf_scheduler"
version = "0.1.0"
edition = "2021"
publish = false

[dependencies]
atsamd-hal = { version = "=0.23.4", features = ["samd51j-rt", "defmt"] }
cortex-m = "=0.7.10"
cortex-m-rt = "=0.7.7"
defmt = "=1.2.0"
defmt-rtt = "=1.3.1"
heapless = "=0.9.3"
panic-probe = { version = "=1.0.0", features = ["print-defmt"] }
