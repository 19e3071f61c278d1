[package]
name = "dicom_sort"
version = "0.1.0"
edition = "2021"
publish = false

[dependencies]
dashmap = "=6.2.1"
dicom = "*"
jwalk = "=0.9.0"
rayon = "=1.12.0"
