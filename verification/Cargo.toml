[package]
name = "summon_app"
version = "0.1.0"
edition = "2021"
publish = false

[dependencies]
chashmap = "2"
lazy_static = "1"
libc = "0.2"
ngx = "0.4"
sysinfo = "0.30"
