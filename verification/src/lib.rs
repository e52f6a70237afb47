//! Core of a local image browser: virtual paths that may run through archive
//! files, listings of directories and archives, a tiered cache of image
//! resources, and the decisions of the coordinator that loads, decodes and
//! displays them.

pub mod archive;
pub mod kinds;
pub mod laws;
pub mod listing;
pub mod model;
pub mod navigation;
pub mod path;
pub mod pathmap;
pub mod raster;
pub mod state;
pub mod text;
