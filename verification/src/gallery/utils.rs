//! Media classification for the video-aware gallery.
use vstd::prelude::*;

use crate::fs_ops::{extension_lower, extension_of, file_name_of};
use crate::text::{lower_seq, str_eq_str};

verus! {

/// The extensions displayed as videos, compared case-insensitively.
pub open spec fn spec_is_video(path: Seq<char>) -> bool {
    match extension_of(file_name_of(path)) {
        None => false,
        Some(e) => {
            let l = lower_seq(e);
            ||| l == "mp4"@
            ||| l == "mov"@
            ||| l == "avi"@
            ||| l == "mkv"@
            ||| l == "webm"@
            ||| l == "m4v"@
        },
    }
}

/// Whether a path names a video file, by its extension alone,
/// case-insensitively.
pub fn is_video(path: &str) -> (r: bool)
    ensures
        r == spec_is_video(path@),
{
    match extension_lower(path) {
        None => false,
        Some(l) => {
            let e = l.as_str();
            str_eq_str(e, "mp4") || str_eq_str(e, "mov") || str_eq_str(e, "avi") || str_eq_str(
                e,
                "mkv",
            ) || str_eq_str(e, "webm") || str_eq_str(e, "m4v")
        },
    }
}

} // verus!
