[package]
name = "hash_miner"
version = "0.1.0"
edition = "2021"
publish = false

[dependencies]
alloy = { version = "=0.4.2", default-features = false, features = ["std", "contract", "network", "provider-http", "reqwest-rustls-tls", "signer-local"] }
dotenvy = "=0.15.7"
eyre = "=0.6.14"
num_cpus = "=1.17.0"
ocl = "=0.19.7"
rand = "=0.8.8"
rpassword = "=7.5.4"
# Not used directly: holds back the version that alloy brings in, as later ones
# pull in many more packages.
ruint = "=1.12.3"
tokio = { version = "=1.54.1", features = ["macros", "rt-multi-thread", "signal", "sync", "time"] }
