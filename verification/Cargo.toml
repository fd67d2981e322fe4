[package]
name = "plaintext_server"
version = "0.1.0"
edition = "2021"
publish = false

[dependencies]
httparse = "=1.10.1"
time = "=0.1.45"
slab = "=0.4.12"
mio = "=0.6.23"
net2 = "=0.2.39"
num_cpus = "=1.17.0"
hyper = "=0.10.16"
mime = "=0.2.6"
iron = "0.6"
