[package]
name = "ieee802154_sniffer"
version = "0.1.0"
edition = "2021"
publish = false

[dependencies]
byteorder = "=1.5.0"
cobs = "=0.3.0"
heapless = "=0.8.0"
postcard = { version = "=1.1.3", default-features = false, features = ["use-std"] }
clap = { version = "=4.6.7", features = ["derive"] }
lazy_static = "=1.5.1"
pcap-file = "=2.0.0"
r-extcap = "=0.2.5"
serialport = { version = "=4.10.1", default-features = false }
signal-hook = "=0.3.18"
embassy-futures = "=0.1.2"
embassy-sync = "=0.8.0"
embedded-io-async = "=0.7.0"
