[package]
name = "pi_ecs"
version = "0.1.0"
edition = "2021"
publish = false

[dependencies]
fixedbitset = "*"
pi_slotmap = "*"
pi_null = "*"
pi_graph = "*"
pi_hash = "*"
pi_map = "*"
pi_share = "*"
pi_listener = "*"
pi_async = "*"
pi_async_graph = "*"
thiserror = "*"
log = "*"
futures = "*"
