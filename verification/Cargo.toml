[package]
name = "trace_store"
version = "0.1.0"
edition = "2021"
publish = false

[dependencies]
chrono = "*"
indexmap = "*"
itertools = "*"
parking_lot = "*"
quanta = "*"
ratatui = "*"
ratatui-macros = "*"
tracing = "*"
tracing-subscriber = "*"
