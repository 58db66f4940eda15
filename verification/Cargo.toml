[package]
name = "ims2tif"
version = "0.1.0"
edition = "2021"
publish = false

[dependencies]
tiff = "*"
hdf5 = "*"
ndarray = "0.15"
