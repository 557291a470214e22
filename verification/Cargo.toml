[package]
name = "drift"
version = "0.1.0"
edition = "2021"
publish = false

[dependencies]
libm = "*"
libc = "*"
log = "*"
thiserror = "*"
pyo3 = "*"
numpy = "*"
pyo3-log = "*"
cust = "*"
