//! A GeoJSON minifier: truncate coordinate precision to a chosen count of
//! decimal places and filter feature properties, over a JSON tree whose
//! numbers are exact decimals.
//!
//! - [`json`] holds the document tree, its mathematical model, and the
//!   object-entry operations everything else is specified with;
//! - [`geo_operations`] truncates coordinate structures and filters one
//!   feature's properties;
//! - [`file_operations`] dispatches over whole documents and resolves
//!   file names and output paths;
//! - [`args`] parses the command line.
//!
//! Reading, parsing and writing files, and the float conversions at the
//! boundary, belong to the surrounding program.

pub mod args;
pub mod file_operations;
pub mod geo_operations;
pub mod json;
