//! Classification of filesystem entries and the synchronization decision.
//!
//! The decision core is pure: it sees a path as a string, a file as its
//! byte length (the deliberate size-only heuristic), and leaves every
//! actual filesystem operation to the surrounding program.
use vstd::prelude::*;

use crate::date_utils::UtcDateTime;
use crate::text::{dec2_str, dec_str, lower_seq, str_eq_str, to_ascii_lower};

verus! {

// ------------------------------------------------------------------
// Path anatomy.
// ------------------------------------------------------------------
/// Index right after the last `/` of `s`; 0 when `s` holds no `/`.
pub open spec fn file_name_start(s: Seq<char>) -> int
    decreases s.len(),
{
    if s.len() == 0 {
        0
    } else if s.last() == '/' {
        s.len() as int
    } else {
        file_name_start(s.drop_last())
    }
}

/// The file-name part of a path: everything after the last `/`.
pub open spec fn file_name_of(s: Seq<char>) -> Seq<char> {
    s.subrange(file_name_start(s), s.len() as int)
}

/// Index right after the last `.` of a file name; 0 when there is none.
pub open spec fn after_last_dot(name: Seq<char>) -> int
    decreases name.len(),
{
    if name.len() == 0 {
        0
    } else if name.last() == '.' {
        name.len() as int
    } else {
        after_last_dot(name.drop_last())
    }
}

/// The extension of a file name: the part after the final `.`, absent
/// when the name holds no `.` or begins with its only `.` (hidden files
/// such as `.hidden` have no extension).
pub open spec fn extension_of(name: Seq<char>) -> Option<Seq<char>> {
    let start = after_last_dot(name);
    if start >= 2 {
        Some(name.subrange(start, name.len() as int))
    } else {
        None
    }
}

pub proof fn lemma_file_name_start(s: Seq<char>, p: int)
    requires
        0 <= p <= s.len(),
        forall|j: int| p <= j < s.len() ==> s[j] != '/',
        p > 0 ==> s[p - 1] == '/',
    ensures
        file_name_start(s) == p,
    decreases s.len(),
{
    if s.len() == 0 {
    } else if s.last() == '/' {
        assert(p == s.len());
    } else {
        assert(p < s.len());
        lemma_file_name_start(s.drop_last(), p);
    }
}

pub proof fn lemma_after_last_dot(s: Seq<char>, p: int)
    requires
        0 <= p <= s.len(),
        forall|j: int| p <= j < s.len() ==> s[j] != '.',
        p > 0 ==> s[p - 1] == '.',
    ensures
        after_last_dot(s) == p,
    decreases s.len(),
{
    if s.len() == 0 {
    } else if s.last() == '.' {
        assert(p == s.len());
    } else {
        assert(p < s.len());
        lemma_after_last_dot(s.drop_last(), p);
    }
}

/// Finds the index right after the last occurrence of `c` in `s[lo..]`,
/// or `lo` when there is none.
pub(crate) fn scan_back(s: &str, n: usize, lo: usize, c: char) -> (r: usize)
    requires
        n == s@.len(),
        lo <= n,
    ensures
        lo <= r <= n,
        forall|j: int| r <= j < n ==> s@[j] != c,
        r > lo ==> s@[r - 1] == c,
{
    let mut p: usize = n;
    while p > lo && s.get_char(p - 1) != c
        invariant
            lo <= p <= n,
            forall|j: int| p <= j < n ==> s@[j] != c,
        decreases p,
    {
        p = p - 1;
    }
    p
}

/// The file-name part of a path, executable form.
pub fn file_name_x(path: &str) -> (r: String)
    ensures
        r@ == file_name_of(path@),
{
    let n = path.unicode_len();
    let p = scan_back(path, n, 0, '/');
    proof {
        lemma_file_name_start(path@, p as int);
    }
    let name = path.substring_char(p, n);
    name.to_owned()
}

/// Index of the first `/` of `s`; `s.len()` when there is none.
pub open spec fn first_slash(s: Seq<char>) -> int
    decreases s.len(),
{
    if s.len() == 0 {
        0
    } else if s[0] == '/' {
        0
    } else {
        1 + first_slash(s.skip(1))
    }
}

/// The segments of a path, split at `/`.  A trailing `/` adds no
/// segment; consecutive `/` produce an empty segment.
pub open spec fn split_path(s: Seq<char>) -> Seq<Seq<char>>
    decreases s.len(),
{
    if s.len() == 0 {
        Seq::empty()
    } else {
        let a = first_slash(s);
        if 0 <= a < s.len() {
            seq![s.subrange(0, a)] + split_path(s.skip(a + 1))
        } else {
            seq![s]
        }
    }
}

/// `p` made relative to `root`: empty for `p == root`, the part after
/// `root/` when `p` lies under it, absent otherwise.
pub open spec fn strip_prefix_path(p: Seq<char>, root: Seq<char>) -> Option<Seq<char>> {
    if p == root {
        Some(Seq::empty())
    } else if p.len() > root.len() && p.subrange(0, root.len() as int) == root && p[root.len() as int]
        == '/' {
        Some(p.skip(root.len() + 1int))
    } else {
        None
    }
}

/// `a` joined with `b` by a `/`; an absolute `b` replaces `a` outright.
pub open spec fn join_path(a: Seq<char>, b: Seq<char>) -> Seq<char> {
    if b.len() > 0 && b[0] == '/' {
        b
    } else {
        a + "/"@ + b
    }
}

/// Joins two paths, executable form.
pub fn join_path_x(a: &str, b: &str) -> (r: String)
    ensures
        r@ == join_path(a@, b@),
{
    let nb = b.unicode_len();
    if nb > 0 && b.get_char(0) == '/' {
        b.to_owned()
    } else {
        let mut out = a.to_owned();
        out.append("/");
        out.append(b);
        proof {
            assert(out@ =~= a@ + "/"@ + b@);
        }
        out
    }
}

/// The directory part of a path: everything before the last `/`, empty
/// when there is none.
pub open spec fn dir_part(p: Seq<char>) -> Seq<char> {
    if file_name_start(p) == 0 {
        Seq::empty()
    } else {
        p.subrange(0, file_name_start(p) - 1)
    }
}

/// The directory part of a path, executable form.
pub fn dir_part_x(path: &str) -> (r: String)
    ensures
        r@ == dir_part(path@),
{
    let n = path.unicode_len();
    let p = scan_back(path, n, 0, '/');
    proof {
        lemma_file_name_start(path@, p as int);
    }
    if p == 0 {
        String::new()
    } else {
        let d = path.substring_char(0, p - 1);
        d.to_owned()
    }
}

proof fn lemma_first_slash_from(s: Seq<char>, from: int, r: int)
    requires
        0 <= from <= r <= s.len(),
        forall|j: int| from <= j < r ==> s[j] != '/',
        r < s.len() ==> s[r] == '/',
    ensures
        first_slash(s.skip(from)) == r - from,
    decreases r - from,
{
    if from == r {
    } else {
        assert(s.skip(from)[0] == s[from]);
        assert(s.skip(from).skip(1) =~= s.skip(from + 1));
        lemma_first_slash_from(s, from + 1, r);
    }
}

/// A path without separators is one single segment.
pub proof fn lemma_split_single(s: Seq<char>)
    requires
        s.len() > 0,
        forall|i: int| 0 <= i < s.len() ==> s[i] != '/',
    ensures
        split_path(s) == seq![s],
{
    lemma_first_slash_from(s, 0, s.len() as int);
    assert(s.skip(0) =~= s);
}

/// Splitting takes one separator-free segment off the front at a time.
pub proof fn lemma_split_path_step(a: Seq<char>, b: Seq<char>)
    requires
        a.len() > 0,
        forall|i: int| 0 <= i < a.len() ==> a[i] != '/',
    ensures
        split_path(a + "/"@ + b) == seq![a] + split_path(b),
{
    let s = a + "/"@ + b;
    reveal_strlit("/");
    assert forall|j: int| 0 <= j < a.len() implies s[j] != '/' by {
        assert(s[j] == a[j]);
    }
    assert(s[a.len() as int] == '/');
    assert(s.skip(0) =~= s);
    lemma_first_slash_from(s, 0, a.len() as int);
    assert(s.subrange(0, a.len() as int) =~= a);
    assert(s.skip(a.len() + 1int) =~= b);
}

/// A path of the shape `root/rest` strips to `rest`.
pub proof fn lemma_strip_prefix_concat(root: Seq<char>, rest: Seq<char>)
    ensures
        strip_prefix_path(root + "/"@ + rest, root) == Some(rest),
{
    let p = root + "/"@ + rest;
    reveal_strlit("/");
    assert(p.len() > root.len());
    assert(p != root) by {
        assert(p.len() != root.len());
    }
    assert(p.subrange(0, root.len() as int) =~= root);
    assert(p[root.len() as int] == '/');
    assert(p.skip(root.len() + 1int) =~= rest);
}

/// Finds the index of the first occurrence of `c` in `s[from..]`, or `n`
/// when there is none.
pub(crate) fn scan_forward(s: &str, n: usize, from: usize, c: char) -> (r: usize)
    requires
        n == s@.len(),
        from <= n,
    ensures
        from <= r <= n,
        forall|j: int| from <= j < r ==> s@[j] != c,
        r < n ==> s@[r as int] == c,
    decreases n - from,
{
    let mut p: usize = from;
    while p < n && s.get_char(p) != c
        invariant
            from <= p <= n,
            forall|j: int| from <= j < p ==> s@[j] != c,
        decreases n - p,
    {
        p = p + 1;
    }
    p
}

/// Splits a path into its `/`-separated segments.
pub fn split_path_x(s: &str) -> (r: Vec<String>)
    ensures
        r.deep_view() == split_path(s@),
{
    let n = s.unicode_len();
    let mut out: Vec<String> = Vec::new();
    if n == 0 {
        assert(out.deep_view() =~= split_path(s@));
        return out;
    }
    let mut pos: usize = 0;
    proof {
        assert(s@.skip(0) =~= s@);
        assert(out.deep_view() + split_path(s@) =~= split_path(s@));
    }
    loop
        invariant
            pos < n,
            n == s@.len(),
            split_path(s@) == out.deep_view() + split_path(s@.skip(pos as int)),
        decreases n - pos,
    {
        let a = scan_forward(s, n, pos, '/');
        proof {
            lemma_first_slash_from(s@.skip(pos as int), 0, a - pos);
            assert(s@.skip(pos as int).skip(0) =~= s@.skip(pos as int));
            assert forall|j: int| 0 <= j < a - pos implies s@.skip(pos as int)[j] != '/' by {
                assert(s@.skip(pos as int)[j] == s@[j + pos]);
            }
        }
        let seg = s.substring_char(pos, a);
        let ghost old_view = out.deep_view();
        out.push(seg.to_owned());
        proof {
            assert(out.deep_view() =~= old_view.push(seg@));
            assert(seg@ =~= s@.skip(pos as int).subrange(0, a - pos));
        }
        if a == n {
            proof {
                assert(first_slash(s@.skip(pos as int)) == s@.skip(pos as int).len());
                assert(split_path(s@.skip(pos as int)) =~= seq![s@.skip(pos as int)]);
                assert(seg@ =~= s@.skip(pos as int));
                assert(out.deep_view() =~= old_view + seq![s@.skip(pos as int)]);
            }
            return out;
        }
        proof {
            assert(split_path(s@.skip(pos as int)) =~= seq![s@.skip(pos as int).subrange(
                0,
                a - pos,
            )] + split_path(s@.skip(pos as int).skip(a - pos + 1)));
            assert(s@.skip(pos as int).skip(a - pos + 1) =~= s@.skip(a + 1));
            assert(out.deep_view() + split_path(s@.skip(a + 1)) =~= split_path(s@));
        }
        if a + 1 == n {
            proof {
                assert(s@.skip(a + 1) =~= Seq::<char>::empty());
                assert(out.deep_view() =~= split_path(s@));
            }
            return out;
        }
        pos = a + 1;
    }
}

/// `p` made relative to `root`, executable form.
pub fn strip_prefix_x(p: &str, root: &str) -> (r: Option<String>)
    ensures
        match strip_prefix_path(p@, root@) {
            Some(rel) => r is Some && r.unwrap()@ == rel,
            None => r is None,
        },
{
    let np = p.unicode_len();
    let nr = root.unicode_len();
    if np == nr {
        if str_eq_str(p, root) {
            proof {
                assert(strip_prefix_path(p@, root@) == Some(Seq::<char>::empty()));
            }
            let e = String::new();
            return Some(e);
        }
        return None;
    }
    if np < nr {
        assert(p@ != root@) by {
            assert(p@.len() != root@.len());
        }
        return None;
    }
    // np > nr: p can only lie under root.
    assert(p@ != root@) by {
        assert(p@.len() != root@.len());
    }
    let mut i: usize = 0;
    while i < nr
        invariant
            i <= nr,
            nr < np,
            np == p@.len() && nr == root@.len(),
            forall|j: int| 0 <= j < i ==> p@[j] == root@[j],
        decreases nr - i,
    {
        if p.get_char(i) != root.get_char(i) {
            assert(p@.subrange(0, nr as int)[i as int] != root@[i as int]);
            return None;
        }
        i = i + 1;
    }
    if p.get_char(nr) != '/' {
        return None;
    }
    proof {
        assert(p@.subrange(0, nr as int) =~= root@);
    }
    let rel = p.substring_char(nr + 1, np);
    Some(rel.to_owned())
}

// ------------------------------------------------------------------
// Classification.
// ------------------------------------------------------------------
/// Whether an entry is eligible media: directories are rejected, then
/// files whose extension is absent, empty, or (case-insensitively)
/// `json`; every other extension is accepted.
pub open spec fn spec_should_process(path: Seq<char>, is_dir: bool) -> bool {
    if is_dir {
        false
    } else {
        match extension_of(file_name_of(path)) {
            None => false,
            Some(ext) => ext.len() > 0 && lower_seq(ext) != "json"@,
        }
    }
}

/// Decides whether a filesystem entry is eligible media.  `is_dir` is the
/// entry's directory bit; `path` is its path with `/` separators.
/// Rejects directories, files without an extension and sidecar `.json`
/// files, case-insensitively; accepts everything else.
pub fn should_process_file(path: &str, is_dir: bool) -> (r: bool)
    ensures
        r == spec_should_process(path@, is_dir),
{
    if is_dir {
        return false;
    }
    let n = path.unicode_len();
    let p = scan_back(path, n, 0, '/');
    proof {
        lemma_file_name_start(path@, p as int);
    }
    let q = scan_back(path, n, p, '.');
    proof {
        let name = file_name_of(path@);
        assert forall|j: int| (q - p) <= j < name.len() implies name[j] != '.' by {
            assert(name[j] == path@[j + p]);
        }
        if q > p {
            assert(name[q - p - 1] == path@[q - 1]);
        }
        lemma_after_last_dot(name, q - p);
    }
    if q - p < 2 {
        // No dot, or a leading dot only: no extension.
        return false;
    }
    if q == n {
        // A trailing dot: the extension is empty.
        assert(extension_of(file_name_of(path@)).unwrap() =~= Seq::<char>::empty());
        return false;
    }
    let ext = path.substring_char(q, n);
    assert(ext@ =~= extension_of(file_name_of(path@)).unwrap());
    let lowered = to_ascii_lower(ext);
    let r = !str_eq_str(lowered.as_str(), "json");
    r
}

/// The ASCII-lowercased extension of a path's file name, when there is
/// one.
pub fn extension_lower(path: &str) -> (r: Option<String>)
    ensures
        match extension_of(file_name_of(path@)) {
            None => r is None,
            Some(e) => r is Some && r.unwrap()@ == lower_seq(e),
        },
{
    let n = path.unicode_len();
    let p = scan_back(path, n, 0, '/');
    proof {
        lemma_file_name_start(path@, p as int);
    }
    let q = scan_back(path, n, p, '.');
    proof {
        let name = file_name_of(path@);
        assert forall|j: int| (q - p) <= j < name.len() implies name[j] != '.' by {
            assert(name[j] == path@[j + p]);
        }
        if q > p {
            assert(name[q - p - 1] == path@[q - 1]);
        }
        lemma_after_last_dot(name, q - p);
    }
    if q - p < 2 {
        return None;
    }
    let ext = path.substring_char(q, n);
    assert(ext@ =~= extension_of(file_name_of(path@)).unwrap());
    Some(to_ascii_lower(ext))
}

// ------------------------------------------------------------------
// The synchronization decision.
// ------------------------------------------------------------------
/// The outcome of placing one file into the destination tree.
#[derive(Clone, Copy, Debug, PartialEq, Eq, Structural)]
pub enum SyncDecision {
    New,
    Updated,
    Skipped,
}

/// The decision, from the byte length of the destination file (when one
/// exists) and of the source.  Equal lengths are treated as
/// already-synchronized: this size-only heuristic is a deliberate,
/// documented imprecision, not to be replaced by content comparison.
pub open spec fn spec_sync_decision(dest_len: Option<int>, src_len: int) -> SyncDecision {
    match dest_len {
        None => SyncDecision::New,
        Some(l) => if l != src_len {
            SyncDecision::Updated
        } else {
            SyncDecision::Skipped
        },
    }
}

/// Destination content after one placement: the source bytes after `New`
/// or `Updated`, the previous content untouched after `Skipped`.
pub open spec fn spec_sync_content(dest: Option<Seq<u8>>, src: Seq<u8>) -> Seq<u8> {
    match dest {
        None => src,
        Some(d) => if d.len() != src.len() {
            src
        } else {
            d
        },
    }
}

/// The decision, stated over contents instead of lengths.
pub open spec fn spec_sync_decision_content(dest: Option<Seq<u8>>, src: Seq<u8>) -> SyncDecision {
    match dest {
        None => spec_sync_decision(None, src.len() as int),
        Some(d) => spec_sync_decision(Some(d.len() as int), src.len() as int),
    }
}

/// Decides how a source file relates to what the destination already
/// holds.  `dest_len` is `None` when no file of the same name exists at
/// the destination.
pub fn decide_sync(dest_len: Option<u64>, src_len: u64) -> (r: SyncDecision)
    ensures
        r == spec_sync_decision(
            match dest_len {
                None => None,
                Some(l) => Some(l as int),
            },
            src_len as int,
        ),
        dest_len is None ==> r == SyncDecision::New,
        dest_len is Some && dest_len.unwrap() != src_len ==> r == SyncDecision::Updated,
        dest_len is Some && dest_len.unwrap() == src_len ==> r == SyncDecision::Skipped,
{
    match dest_len {
        None => SyncDecision::New,
        Some(l) => if l != src_len {
            SyncDecision::Updated
        } else {
            SyncDecision::Skipped
        },
    }
}

/// Idempotence of the synchronization step: placing unchanged source
/// content twice yields `New` then `Skipped`, and after both runs the
/// destination holds exactly the source bytes.
pub proof fn lemma_sync_idempotent(src: Seq<u8>)
    ensures
        spec_sync_decision_content(None, src) == SyncDecision::New,
        spec_sync_content(None, src) == src,
        spec_sync_decision_content(Some(spec_sync_content(None, src)), src)
            == SyncDecision::Skipped,
        spec_sync_content(Some(spec_sync_content(None, src)), src) == src,
{
}

/// Change detection: when the source length changes between two runs,
/// the second placement reports `Updated` and the destination then
/// matches the new source.
pub proof fn lemma_sync_change_detected(src1: Seq<u8>, src2: Seq<u8>)
    requires
        src1.len() != src2.len(),
    ensures
        spec_sync_decision_content(Some(spec_sync_content(None, src1)), src2)
            == SyncDecision::Updated,
        spec_sync_content(Some(spec_sync_content(None, src1)), src2) == src2,
{
}

/// The accepted blind spot of the size heuristic: a destination file of
/// the same length as the source is left untouched even when its bytes
/// differ.
pub proof fn lemma_sync_same_length_skipped(dest: Seq<u8>, src: Seq<u8>)
    requires
        dest.len() == src.len(),
    ensures
        spec_sync_decision_content(Some(dest), src) == SyncDecision::Skipped,
        spec_sync_content(Some(dest), src) == dest,
{
}

// ------------------------------------------------------------------
// Destination layout.
// ------------------------------------------------------------------
/// The destination subdirectory for a resolved date: unpadded year,
/// zero-padded month and day; the unknown bucket otherwise.
pub open spec fn spec_dest_subdir(date: Option<UtcDateTime>, unknown_dir: Seq<char>) -> Seq<char> {
    match date {
        Some(d) => dec_str(d.year as int) + "/"@ + dec2_str(d.month as int) + "/"@ + dec2_str(
            d.day as int,
        ),
        None => unknown_dir,
    }
}

/// Renders the destination subdirectory (`YYYY/MM/DD`, or the unknown
/// bucket) for a resolved date.
pub fn destination_subdir(date: Option<UtcDateTime>, unknown_dir: &str) -> (r: String)
    requires
        date is Some ==> date.unwrap().wf(),
    ensures
        r@ == spec_dest_subdir(date, unknown_dir@),
{
    match date {
        Some(d) => {
            let mut out = String::new();
            crate::text::append_dec(&mut out, d.year as u32);
            out.append("/");
            crate::text::append_dec2(&mut out, d.month as u32);
            out.append("/");
            crate::text::append_dec2(&mut out, d.day as u32);
            proof {
                assert(out@ =~= spec_dest_subdir(date, unknown_dir@));
            }
            out
        },
        None => unknown_dir.to_owned(),
    }
}

/// The full destination path of one file.  A file with no resolved date
/// lands at `output_root/<unknown_dir>/<filename>`; a dated file at
/// `output_root/<YYYY>/<MM>/<DD>/<filename>`.
pub fn destination_path(
    output_root: &str,
    date: Option<UtcDateTime>,
    unknown_dir: &str,
    filename: &str,
) -> (r: String)
    requires
        date is Some ==> date.unwrap().wf(),
    ensures
        r@ == output_root@ + "/"@ + spec_dest_subdir(date, unknown_dir@) + "/"@ + filename@,
        date is None ==> r@ == output_root@ + "/"@ + unknown_dir@ + "/"@ + filename@,
{
    let mut out = output_root.to_owned();
    out.append("/");
    let sub = destination_subdir(date, unknown_dir);
    out.append(sub.as_str());
    out.append("/");
    out.append(filename);
    proof {
        assert(out@ =~= output_root@ + "/"@ + spec_dest_subdir(date, unknown_dir@) + "/"@
            + filename@);
    }
    out
}

} // verus!
