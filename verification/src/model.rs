//! The shape of a sidecar metadata file: an optional "photo taken" time
//! and an optional "creation" time, each carrying a string-encoded Unix
//! timestamp in seconds.
use vstd::prelude::*;

verus! {

/// One timestamp entry of a sidecar file.
pub struct GoogleTimestamp {
    pub timestamp: String,
}

/// The fields of a sidecar JSON document that date resolution reads.
pub struct PhotoMetadata {
    pub photo_taken_time: Option<GoogleTimestamp>,
    pub creation_time: Option<GoogleTimestamp>,
}

} // verus!
