[package]
name = "isomp4_h264"
version = "0.1.0"
edition = "2021"
publish = false

[dependencies]
byteorder = "=1.5.0"
h264-reader = "=0.9.0"
mp4 = "=0.14.0"
gstreamer = "0.21"
env_logger = "=0.11.11"
log = "=0.4.34"
