[package]
name = "outline_raster"
version = "0.1.0"
edition = "2021"
publish = false

[dependencies]
aligned_box = "*"
ab_glyph_rasterizer = "0.1"
byte_set = "*"
bytemuck = "1"
clipboard-win = "4"
cstr = "0.2"
gl = "0.14"
glutin = "0.26"
image = "0.23"
native-windows-gui = "1.0"
num_enum = "0.5"
num-traits = "0.2"
once_cell = "1"
thiserror = "1"
