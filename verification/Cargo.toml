[package]
name = "deskctrl"
version = "0.1.0"
edition = "2021"
publish = false

[dependencies]
anyhow = "1"
bincode = "1"
clap = { version = "4", features = ["derive"] }
daemonize = "0.5"
gdk-pixbuf = "0.18"
glib = "0.18"
hyphenation = { version = "0.8", features = ["embed_en-us"] }
hyprland = "0.3"
nix = { version = "0.27", features = ["user"] }
ring = "0.17"
serde = { version = "1", features = ["derive"] }
serde_json = "1"
sysinfo = "0.29"
textwrap = { version = "0.16", features = ["hyphenation"] }
tokio = { version = "1", features = ["full"] }
zbus = "3"
zvariant = "3"
