[package]
name = "wump"
version = "0.1.0"
edition = "2021"
publish = false

[dependencies]
bitflags = "=2.13.2"
bitmap-font = "0.1"
chrono = "=0.4.45"
i2cdev = "=0.6.2"
mpd = "=0.1.0"
retry = "=2.2.0"
rouille = "=3.6.2"
rppal = { version = "=0.22.1", features = ["hal"] }
rusttype = "=0.9.3"
serde = { version = "=1.0.229", features = ["derive"] }
serde_json = "=1.0.154"
signal-hook = "=0.4.5"
spidev = "=0.7.1"
ssd1322 = "=0.3.0"
sysfs_gpio = "=0.6.2"
tinytemplate = "=1.2.1"
