//! Helpers of the gallery renderer: recognizing image files and
//! re-deriving a display date from a destination path.
use vstd::prelude::*;

use crate::date_utils::UtcDateTime;
use crate::fs_ops::{
    extension_of, extension_lower, file_name_of, lemma_split_path_step, lemma_split_single,
    lemma_strip_prefix_concat, spec_dest_subdir, split_path, split_path_x, strip_prefix_path,
    strip_prefix_x,
};
use crate::text::{
    all_digits, all_digits_x, dec2_str, dec_str, lemma_dec2_str_digits, lemma_dec_str_digits,
    lower_seq, str_eq_str,
};

verus! {

/// The extensions displayed as images, compared case-insensitively.
pub open spec fn spec_is_image(path: Seq<char>) -> bool {
    match extension_of(file_name_of(path)) {
        None => false,
        Some(e) => {
            let l = lower_seq(e);
            ||| l == "jpg"@
            ||| l == "jpeg"@
            ||| l == "png"@
            ||| l == "gif"@
            ||| l == "bmp"@
            ||| l == "webp"@
            ||| l == "heic"@
            ||| l == "heif"@
            ||| l == "tiff"@
        },
    }
}

/// Whether a path names an image file, by its extension alone,
/// case-insensitively.
pub fn is_image(path: &str) -> (r: bool)
    ensures
        r == spec_is_image(path@),
{
    match extension_lower(path) {
        None => false,
        Some(l) => {
            let e = l.as_str();
            str_eq_str(e, "jpg") || str_eq_str(e, "jpeg") || str_eq_str(e, "png") || str_eq_str(
                e,
                "gif",
            ) || str_eq_str(e, "bmp") || str_eq_str(e, "webp") || str_eq_str(e, "heic")
                || str_eq_str(e, "heif") || str_eq_str(e, "tiff")
        },
    }
}

/// The date a destination path displays as: for a path of the shape
/// `root/<year>/<month>/<day>/...file`, with all three segments
/// non-empty and purely numeric, the string `year-month-day`; nothing
/// otherwise.
pub open spec fn spec_date_from_path(p: Seq<char>, root: Seq<char>) -> Option<Seq<char>> {
    match strip_prefix_path(p, root) {
        None => None,
        Some(rel) => {
            let segs = split_path(rel);
            if segs.len() >= 4 && segs[0].len() > 0 && segs[1].len() > 0 && segs[2].len() > 0
                && all_digits(segs[0]) && all_digits(segs[1]) && all_digits(segs[2]) {
                Some(segs[0] + "-"@ + segs[1] + "-"@ + segs[2])
            } else {
                None
            }
        },
    }
}

/// The collaborator contract between the synchronization engine and the
/// renderer: for any file placed under the dated layout, the renderer
/// re-derives the displayed date purely from the path's first three
/// segments, and it is exactly the year, month and day the engine
/// encoded.
pub proof fn lemma_renderer_rederives_layout_date(
    root: Seq<char>,
    d: UtcDateTime,
    unknown_dir: Seq<char>,
    filename: Seq<char>,
)
    requires
        d.wf(),
        filename.len() > 0,
        forall|i: int| 0 <= i < filename.len() ==> filename[i] != '/',
    ensures
        spec_date_from_path(
            root + "/"@ + spec_dest_subdir(Some(d), unknown_dir) + "/"@ + filename,
            root,
        ) == Some(
            dec_str(d.year as int) + "-"@ + dec2_str(d.month as int) + "-"@ + dec2_str(
                d.day as int,
            ),
        ),
{
    let y = dec_str(d.year as int);
    let m = dec2_str(d.month as int);
    let dd = dec2_str(d.day as int);
    lemma_dec_str_digits(d.year as int);
    lemma_dec2_str_digits(d.month as int);
    lemma_dec2_str_digits(d.day as int);
    assert forall|i: int| 0 <= i < y.len() implies y[i] != '/' by {
        assert(crate::text::is_digit(y[i]));
    }
    assert forall|i: int| 0 <= i < m.len() implies m[i] != '/' by {
        assert(crate::text::is_digit(m[i]));
    }
    assert forall|i: int| 0 <= i < dd.len() implies dd[i] != '/' by {
        assert(crate::text::is_digit(dd[i]));
    }
    let sub = spec_dest_subdir(Some(d), unknown_dir);
    let rest = sub + "/"@ + filename;
    let full = root + "/"@ + sub + "/"@ + filename;
    assert(full =~= root + "/"@ + rest);
    lemma_strip_prefix_concat(root, rest);
    assert(rest =~= y + "/"@ + (m + "/"@ + (dd + "/"@ + filename)));
    lemma_split_path_step(y, m + "/"@ + (dd + "/"@ + filename));
    lemma_split_path_step(m, dd + "/"@ + filename);
    lemma_split_path_step(dd, filename);
    lemma_split_single(filename);
    let segs = split_path(rest);
    assert(segs =~= seq![y] + (seq![m] + (seq![dd] + seq![filename])));
    assert(segs.len() == 4);
    assert(segs[0] == y && segs[1] == m && segs[2] == dd);
}

/// Re-derives a photo's displayed date purely from the first three
/// segments of its destination path below `root_path`; the segments must
/// be numeric year/month/day directories.
pub fn get_date_from_path(image_path: &str, root_path: &str) -> (r: Option<String>)
    ensures
        match spec_date_from_path(image_path@, root_path@) {
            None => r is None,
            Some(d) => r is Some && r.unwrap()@ == d,
        },
{
    let rel = match strip_prefix_x(image_path, root_path) {
        None => {
            return None;
        },
        Some(rel) => rel,
    };
    let segs = split_path_x(rel.as_str());
    if segs.len() < 4 {
        return None;
    }
    proof {
        assert(segs.deep_view()[0] == segs@[0]@);
        assert(segs.deep_view()[1] == segs@[1]@);
        assert(segs.deep_view()[2] == segs@[2]@);
    }
    let y = &segs[0];
    let m = &segs[1];
    let d = &segs[2];
    if y.unicode_len() == 0 || m.unicode_len() == 0 || d.unicode_len() == 0 {
        return None;
    }
    if !(all_digits_x(y.as_str()) && all_digits_x(m.as_str()) && all_digits_x(d.as_str())) {
        return None;
    }
    let mut out = y.clone();
    out.append("-");
    out.append(m.as_str());
    out.append("-");
    out.append(d.as_str());
    proof {
        assert(out@ =~= segs.deep_view()[0] + "-"@ + segs.deep_view()[1] + "-"@
            + segs.deep_view()[2]);
    }
    Some(out)
}

} // verus!
