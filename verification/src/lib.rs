//! Organizes a collection of media files into a `YEAR/MONTH/DAY` directory
//! hierarchy.  The capture date of each file is resolved by a cascade of
//! sources (sidecar JSON, embedded metadata, filename patterns); a
//! synchronization engine then decides, from file sizes alone, whether a
//! file is new, changed or already present in the destination tree.
#![verifier::loop_isolation(false)]

pub mod date_utils;
pub mod fs_ops;
pub mod gallery;
pub mod html;
pub mod metadata;
pub mod model;
pub mod stats;
pub mod text;
