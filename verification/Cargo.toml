[package]
name = "app_launcher"
version = "0.1.0"
edition = "2021"
publish = false

[dependencies]
glib = "*"
gio = "*"
pty = "0.2"
getopts = "0.2"
log = "0.4"
env_logger = "*"
