//! Selection and renaming of cached wallpaper images.
//!
//! The library decides, for each entry of a source directory, whether it is
//! copied and under which name: regular files at or above a size threshold,
//! whose extension is not excluded, are numbered from one in listing order and
//! named `{prefix}_{number}.{extension}`. The file system work around those
//! decisions is left to the caller.

pub mod config;
pub mod error;
pub mod file_ops;
pub mod laws;
pub mod text;
pub mod utils;
