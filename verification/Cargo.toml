[package]
name = "threed2vox"
version = "1.0.0"
edition = "2021"
publish = false

[dependencies]
anyhow = "1"
clap = "=2.34.0"
collada = "0.14"
gltf = "=1.4.1"
hematite-nbt = "=0.5.2"
log = "0.4"
nalgebra = "0.33"
num_cpus = "=1.17.0"
parry3d = "0.17"
rayon = "1"
simplelog = "0.9"
stl_io = "0.6"
strsim = "=0.11.1"
tobj = "2"
toml = "0.5"
