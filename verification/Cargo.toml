[package]
name = "async_executor"
version = "1.0.0"
edition = "2021"
publish = false

[dependencies]
async-task = "4.4"
concurrent-queue = "2.5"
fastrand = "2.0"
futures-lite = "2.0"
pin-project-lite = "0.2"
slab = "0.4.4"
