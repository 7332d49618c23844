[package]
name = "girdle"
version = "0.1.0"
edition = "2021"
publish = false

[dependencies]
gtk = "0.15"
gdk = "0.15"
glib = "0.15"
