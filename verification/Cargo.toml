[package]
name = "obweb"
version = "0.1.0"
edition = "2021"
publish = false

[dependencies]
base64 = "=0.13.1"
chrono = "=0.4.45"
druid = "=0.8.3"
priority-queue = "=2.7.0"
smallvec = "=1.16.4"
wood = "=0.10.1"
