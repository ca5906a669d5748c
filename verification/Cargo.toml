[package]
name = "framed"
version = "0.1.0"
edition = "2021"
publish = false

[dependencies]
byteorder = "=1.5.0"
cobs = "=0.1.3"
crc16 = "=0.3.4"
ref_slice = "=1.2.1"
serde = "=1.0.229"
serde_derive = "=1.0.229"
ssmarshal = "=1.0.0"
clap = "=2.34.0"
csv = "=1.4.0"
serde_json = "=1.0.154"
derive-error = "=0.0.5"
