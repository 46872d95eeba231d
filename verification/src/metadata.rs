//! The date-resolution cascade: sidecar JSON, embedded metadata, filename
//! patterns.  Each source is a total function that yields an optional
//! instant; the cascade takes the first success.
use vstd::prelude::*;

use crate::date_utils::{
    date_valid, date_valid_x, spec_timestamp_date, timestamp_string_to_date, naive_to_utc,
    UtcDateTime,
};
use crate::model::{GoogleTimestamp, PhotoMetadata};
use crate::text::{all_digits, digits_val, is_digit};

verus! {

// ------------------------------------------------------------------
// Filename patterns.
//
// A filename can encode a date in one of two ways:
//  * the standard pattern: four digits (year), an optional single
//    non-digit separator, two digits (month), an optional separator,
//    two digits (day);
//  * the day-month-year pattern: eight consecutive digits read as
//    DDMMYYYY.
// Only the leftmost occurrence of each pattern is considered, the
// standard pattern first.  A match counts only when the year lies
// strictly between 1990 and 2030 and the digits form a valid calendar
// date; an unusable standard match falls through to the day-month-year
// pattern, an unusable day-month-year match resolves to nothing.
// ------------------------------------------------------------------
/// A separator character admitted inside the standard pattern: any
/// single non-digit character.
pub open spec fn is_sep(c: char) -> bool {
    !is_digit(c)
}

/// `count` ASCII digits start at position `from`.
pub open spec fn digits_at(s: Seq<char>, from: int, count: int) -> bool {
    &&& 0 <= from
    &&& 0 <= count
    &&& from + count <= s.len()
    &&& all_digits(s.subrange(from, from + count))
}

/// Position of the next group: one past `p` when a separator stands at
/// `p`, otherwise `p` itself.
pub open spec fn group_start(s: Seq<char>, p: int) -> int {
    if p < s.len() && is_sep(s[p]) {
        p + 1
    } else {
        p
    }
}

/// The standard pattern matches at position `i`.
pub open spec fn std_match_at(s: Seq<char>, i: int) -> bool {
    &&& digits_at(s, i, 4)
    &&& digits_at(s, group_start(s, i + 4), 2)
    &&& digits_at(s, group_start(s, group_start(s, i + 4) + 2) , 2)
}

pub open spec fn std_year(s: Seq<char>, i: int) -> int {
    digits_val(s.subrange(i, i + 4))
}

pub open spec fn std_month(s: Seq<char>, i: int) -> int {
    digits_val(s.subrange(group_start(s, i + 4), group_start(s, i + 4) + 2))
}

pub open spec fn std_day(s: Seq<char>, i: int) -> int {
    let k = group_start(s, group_start(s, i + 4) + 2);
    digits_val(s.subrange(k, k + 2))
}

/// The standard pattern matches at `i` and nowhere earlier.
pub open spec fn first_std_match(s: Seq<char>, i: int) -> bool {
    std_match_at(s, i) && (forall|j: int| 0 <= j < i ==> !std_match_at(s, j))
}

/// The day-month-year pattern matches at position `i`.
pub open spec fn dmy_match_at(s: Seq<char>, i: int) -> bool {
    digits_at(s, i, 8)
}

pub open spec fn dmy_day(s: Seq<char>, i: int) -> int {
    digits_val(s.subrange(i, i + 2))
}

pub open spec fn dmy_month(s: Seq<char>, i: int) -> int {
    digits_val(s.subrange(i + 2, i + 4))
}

pub open spec fn dmy_year(s: Seq<char>, i: int) -> int {
    digits_val(s.subrange(i + 4, i + 8))
}

/// The day-month-year pattern matches at `i` and nowhere earlier.
pub open spec fn first_dmy_match(s: Seq<char>, i: int) -> bool {
    dmy_match_at(s, i) && (forall|j: int| 0 <= j < i ==> !dmy_match_at(s, j))
}

/// Years accepted from filename patterns.
pub open spec fn year_in_range(y: int) -> bool {
    1990 < y < 2030
}

/// The instant at noon of a calendar date.
pub open spec fn noon_date(y: int, m: int, d: int) -> UtcDateTime {
    UtcDateTime { year: y as u16, month: m as u8, day: d as u8, hour: 12, minute: 0, second: 0 }
}

/// The leftmost standard match is usable: in-range year, valid date.
pub open spec fn std_resolves(s: Seq<char>) -> bool {
    exists|i: int|
        first_std_match(s, i) && year_in_range(std_year(s, i)) && date_valid(
            std_year(s, i),
            std_month(s, i),
            std_day(s, i),
        )
}

/// What the day-month-year pattern alone yields for a filename.
pub open spec fn spec_dmy_date(s: Seq<char>) -> Option<UtcDateTime> {
    if exists|i: int| first_dmy_match(s, i) {
        let i = choose|i: int| first_dmy_match(s, i);
        if year_in_range(dmy_year(s, i)) && date_valid(dmy_year(s, i), dmy_month(s, i), dmy_day(s, i)) {
            Some(noon_date(dmy_year(s, i), dmy_month(s, i), dmy_day(s, i)))
        } else {
            None
        }
    } else {
        None
    }
}

/// What filename-based resolution yields: the leftmost standard match when
/// it is usable, otherwise the leftmost day-month-year match when that one
/// is usable, otherwise nothing.
pub open spec fn spec_filename_date(s: Seq<char>) -> Option<UtcDateTime> {
    if exists|i: int| first_std_match(s, i) {
        let i = choose|i: int| first_std_match(s, i);
        if year_in_range(std_year(s, i)) && date_valid(std_year(s, i), std_month(s, i), std_day(s, i)) {
            Some(noon_date(std_year(s, i), std_month(s, i), std_day(s, i)))
        } else {
            spec_dmy_date(s)
        }
    } else {
        spec_dmy_date(s)
    }
}

proof fn lemma_first_std_unique(s: Seq<char>, a: int, b: int)
    requires
        first_std_match(s, a),
        first_std_match(s, b),
    ensures
        a == b,
{
    if a < b {
        assert(!std_match_at(s, a));
    } else if b < a {
        assert(!std_match_at(s, b));
    }
}

proof fn lemma_first_dmy_unique(s: Seq<char>, a: int, b: int)
    requires
        first_dmy_match(s, a),
        first_dmy_match(s, b),
    ensures
        a == b,
{
    if a < b {
        assert(!dmy_match_at(s, a));
    } else if b < a {
        assert(!dmy_match_at(s, b));
    }
}

/// For any filename whose leftmost standard-pattern occurrence carries an
/// in-range year and a valid calendar date, filename resolution returns
/// exactly that date, anchored at noon.
pub proof fn lemma_filename_std_date(s: Seq<char>, i: int)
    requires
        first_std_match(s, i),
        year_in_range(std_year(s, i)),
        date_valid(std_year(s, i), std_month(s, i), std_day(s, i)),
    ensures
        spec_filename_date(s) == Some(noon_date(std_year(s, i), std_month(s, i), std_day(s, i))),
{
    let c = choose|j: int| first_std_match(s, j);
    lemma_first_std_unique(s, c, i);
}

/// A filename on which the standard pattern yields nothing usable, but
/// whose leftmost eight-digit run reads as a valid in-range date in
/// day-month-year order, resolves to exactly that date.
pub proof fn lemma_filename_dmy_date(s: Seq<char>, i: int)
    requires
        !std_resolves(s),
        first_dmy_match(s, i),
        year_in_range(dmy_year(s, i)),
        date_valid(dmy_year(s, i), dmy_month(s, i), dmy_day(s, i)),
    ensures
        spec_filename_date(s) == Some(noon_date(dmy_year(s, i), dmy_month(s, i), dmy_day(s, i))),
{
    let c = choose|j: int| first_dmy_match(s, j);
    lemma_first_dmy_unique(s, c, i);
    if exists|j: int| first_std_match(s, j) {
        let cs = choose|j: int| first_std_match(s, j);
        assert(!(year_in_range(std_year(s, cs)) && date_valid(
            std_year(s, cs),
            std_month(s, cs),
            std_day(s, cs),
        )));
    }
}

/// A filename in which neither pattern occurs anywhere resolves to no
/// date.
pub proof fn lemma_filename_no_pattern(s: Seq<char>)
    requires
        forall|i: int| !std_match_at(s, i),
        forall|i: int| !dmy_match_at(s, i),
    ensures
        spec_filename_date(s) is None,
{
}

fn digits_at_x(s: &str, n: usize, from: usize, count: usize) -> (r: bool)
    requires
        n == s@.len(),
        from <= n,
        count <= 8,
    ensures
        r == digits_at(s@, from as int, count as int),
{
    if n - from < count {
        return false;
    }
    let mut k: usize = 0;
    while k < count
        invariant
            k <= count,
            from + count <= n,
            forall|j: int| 0 <= j < k ==> is_digit(#[trigger] s@[from + j]),
        decreases count - k,
    {
        let c = s.get_char(from + k);
        if !('0' <= c && c <= '9') {
            assert(!all_digits(s@.subrange(from as int, from + count))) by {
                assert(s@.subrange(from as int, from + count)[k as int] == s@[from + k]);
            }
            return false;
        }
        k = k + 1;
    }
    assert(all_digits(s@.subrange(from as int, from + count))) by {
        assert(forall|j: int|
            0 <= j < count ==> #[trigger] s@.subrange(from as int, from + count)[j] == s@[from
                + j]);
    }
    true
}

fn sep_at(s: &str, n: usize, p: usize) -> (r: bool)
    requires
        n == s@.len(),
    ensures
        r == (p < s@.len() && is_sep(s@[p as int])),
{
    if p < n {
        let c = s.get_char(p);
        !('0' <= c && c <= '9')
    } else {
        false
    }
}

fn std_match_x(s: &str, n: usize, i: usize) -> (r: bool)
    requires
        n == s@.len(),
        i <= n,
    ensures
        r == std_match_at(s@, i as int),
{
    if !digits_at_x(s, n, i, 4) {
        return false;
    }
    let j: usize = if sep_at(s, n, i + 4) {
        i + 5
    } else {
        i + 4
    };
    assert(j == group_start(s@, i + 4));
    if !digits_at_x(s, n, j, 2) {
        return false;
    }
    let k: usize = if sep_at(s, n, j + 2) {
        j + 3
    } else {
        j + 2
    };
    assert(k == group_start(s@, j + 2));
    digits_at_x(s, n, k, 2)
}

/// Resolves a date from a filename alone: the leftmost standard
/// year-month-day group if it is usable, else the leftmost eight-digit
/// day-month-year run if that one is, else nothing.
pub fn parse_filename_date(filename: &str) -> (r: Option<UtcDateTime>)
    ensures
        r == spec_filename_date(filename@),
        r.is_some() ==> r.unwrap().wf(),
{
    let n = filename.unicode_len();
    let mut i: usize = 0;
    while i < n && !std_match_x(filename, n, i)
        invariant
            i <= n,
            forall|j: int| 0 <= j < i ==> !std_match_at(filename@, j),
        decreases n - i,
    {
        i = i + 1;
    }
    if i < n {
        // Leftmost standard match found at i.
        assert(first_std_match(filename@, i as int));
        let j: usize = if sep_at(filename, n, i + 4) {
            i + 5
        } else {
            i + 4
        };
        assert(j == group_start(filename@, i + 4));
        let k: usize = if sep_at(filename, n, j + 2) {
            j + 3
        } else {
            j + 2
        };
        assert(k == group_start(filename@, j + 2));
        let y = crate::text::parse_digits(filename, i, i + 4);
        let m = crate::text::parse_digits(filename, j, j + 2);
        let d = crate::text::parse_digits(filename, k, k + 2);
        assert(y == std_year(filename@, i as int));
        assert(m == std_month(filename@, i as int));
        assert(d == std_day(filename@, i as int));
        if y > 1990 && y < 2030 {
            if let Some(dt) = naive_to_utc(y as i32, m, d) {
                proof {
                    lemma_filename_std_date(filename@, i as int);
                }
                return Some(dt);
            }
        }
        proof {
            // The leftmost standard match is unusable; resolution falls
            // through to the day-month-year pattern.
            let c = choose|j: int| first_std_match(filename@, j);
            lemma_first_std_unique(filename@, c, i as int);
        }
    } else {
        assert(forall|j: int| 0 <= j < n ==> !std_match_at(filename@, j));
        assert(forall|j: int| !std_match_at(filename@, j)) by {
            assert(forall|j: int|
                (j < 0 || j >= n) ==> !std_match_at(filename@, j));
        }
    }
    parse_dmy_date(filename, n)
}

fn parse_dmy_date(filename: &str, n: usize) -> (r: Option<UtcDateTime>)
    requires
        n == filename@.len(),
        spec_filename_date(filename@) == spec_dmy_date(filename@),
    ensures
        r == spec_filename_date(filename@),
        r.is_some() ==> r.unwrap().wf(),
{
    let mut i: usize = 0;
    while i < n && !digits_at_x(filename, n, i, 8)
        invariant
            i <= n,
            forall|j: int| 0 <= j < i ==> !dmy_match_at(filename@, j),
        decreases n - i,
    {
        i = i + 1;
    }
    if i < n {
        assert(first_dmy_match(filename@, i as int));
        proof {
            crate::text::lemma_all_digits_subrange(filename@, i as int, i + 8, i as int, i + 2);
            crate::text::lemma_all_digits_subrange(filename@, i as int, i + 8, i + 2, i + 4);
            crate::text::lemma_all_digits_subrange(filename@, i as int, i + 8, i + 4, i + 8);
        }
        let d = crate::text::parse_digits(filename, i, i + 2);
        let m = crate::text::parse_digits(filename, i + 2, i + 4);
        let y = crate::text::parse_digits(filename, i + 4, i + 8);
        assert(d == dmy_day(filename@, i as int));
        assert(m == dmy_month(filename@, i as int));
        assert(y == dmy_year(filename@, i as int));
        proof {
            let c = choose|j: int| first_dmy_match(filename@, j);
            lemma_first_dmy_unique(filename@, c, i as int);
        }
        if y > 1990 && y < 2030 {
            if let Some(dt) = naive_to_utc(y as i32, m, d) {
                return Some(dt);
            }
        }
        None
    } else {
        assert(forall|j: int| 0 <= j < n ==> !dmy_match_at(filename@, j));
        assert(forall|j: int| !dmy_match_at(filename@, j)) by {
            assert(forall|j: int|
                (j < 0 || j >= n) ==> !dmy_match_at(filename@, j));
        }
        None
    }
}

// ------------------------------------------------------------------
// Embedded capture-time tags.
//
// The textual value of a date/time tag is trimmed of surrounding ASCII
// whitespace and then parsed against two fixed layouts,
// `YYYY:MM:DD HH:MM:SS` and `YYYY-MM-DD HH:MM:SS`.
// ------------------------------------------------------------------
/// ASCII whitespace, as trimmed off tag values.
pub open spec fn is_space(c: char) -> bool {
    c == ' ' || c == '\t' || c == '\n' || c == '\r'
}

/// Number of whitespace characters at the front of `s`.
pub open spec fn leading_spaces(s: Seq<char>) -> int
    decreases s.len(),
{
    if s.len() == 0 || !is_space(s[0]) {
        0
    } else {
        1 + leading_spaces(s.skip(1))
    }
}

/// Number of whitespace characters at the back of `s`.
pub open spec fn trailing_spaces(s: Seq<char>) -> int
    decreases s.len(),
{
    if s.len() == 0 || !is_space(s.last()) {
        0
    } else {
        1 + trailing_spaces(s.drop_last())
    }
}

/// `s` with surrounding whitespace removed.
pub open spec fn trimmed(s: Seq<char>) -> Seq<char> {
    let a = leading_spaces(s);
    let b = s.len() - trailing_spaces(s);
    if a < b {
        s.subrange(a, b)
    } else {
        Seq::empty()
    }
}

proof fn lemma_leading_spaces(s: Seq<char>, a: int)
    requires
        0 <= a <= s.len(),
        forall|j: int| 0 <= j < a ==> is_space(#[trigger] s[j]),
        a < s.len() ==> !is_space(s[a]),
    ensures
        leading_spaces(s) == a,
    decreases s.len(),
{
    if s.len() == 0 || !is_space(s[0]) {
        assert(a == 0);
    } else {
        assert(a >= 1);
        lemma_leading_spaces(s.skip(1), a - 1);
    }
}

proof fn lemma_trailing_spaces(s: Seq<char>, b: int)
    requires
        0 <= b <= s.len(),
        forall|j: int| b <= j < s.len() ==> is_space(#[trigger] s[j]),
        b > 0 ==> !is_space(s[b - 1]),
    ensures
        trailing_spaces(s) == s.len() - b,
    decreases s.len(),
{
    if s.len() == 0 || !is_space(s.last()) {
        assert(b == s.len());
    } else {
        assert(b < s.len());
        lemma_trailing_spaces(s.drop_last(), b);
    }
}

/// The six digit groups and five separators of a tag value, once trimmed:
/// `YYYY:MM:DD HH:MM:SS` with the two date separators either both `:` or
/// both `-`.
pub open spec fn exif_layout_ok(t: Seq<char>) -> bool {
    &&& t.len() == 19
    &&& digits_at(t, 0, 4)
    &&& digits_at(t, 5, 2)
    &&& digits_at(t, 8, 2)
    &&& digits_at(t, 11, 2)
    &&& digits_at(t, 14, 2)
    &&& digits_at(t, 17, 2)
    &&& ((t[4] == ':' && t[7] == ':') || (t[4] == '-' && t[7] == '-'))
    &&& t[10] == ' '
    &&& t[13] == ':'
    &&& t[16] == ':'
}

/// What a textual tag value resolves to: the encoded naive instant when
/// the trimmed text has the expected layout, a supported valid date and a
/// valid time of day; nothing otherwise.
pub open spec fn spec_exif_text_date(s: Seq<char>) -> Option<UtcDateTime> {
    let t = trimmed(s);
    if exif_layout_ok(t) {
        let y = digits_val(t.subrange(0, 4));
        let m = digits_val(t.subrange(5, 7));
        let d = digits_val(t.subrange(8, 10));
        let h = digits_val(t.subrange(11, 13));
        let mi = digits_val(t.subrange(14, 16));
        let sec = digits_val(t.subrange(17, 19));
        if date_valid(y, m, d) && h < 24 && mi < 60 && sec < 60 {
            Some(
                UtcDateTime {
                    year: y as u16,
                    month: m as u8,
                    day: d as u8,
                    hour: h as u8,
                    minute: mi as u8,
                    second: sec as u8,
                },
            )
        } else {
            None
        }
    } else {
        None
    }
}

fn space_at(s: &str, n: usize, p: usize) -> (r: bool)
    requires
        n == s@.len(),
        p < n,
    ensures
        r == is_space(s@[p as int]),
{
    let c = s.get_char(p);
    c == ' ' || c == '\t' || c == '\n' || c == '\r'
}

/// Parses the textual value of an embedded date/time tag: surrounding
/// whitespace is trimmed, then the text must read `YYYY:MM:DD HH:MM:SS`
/// or `YYYY-MM-DD HH:MM:SS` and denote a valid instant.
pub fn parse_exif_datetime(s: &str) -> (r: Option<UtcDateTime>)
    ensures
        r == spec_exif_text_date(s@),
        r.is_some() ==> r.unwrap().wf(),
{
    let n = s.unicode_len();
    let mut a: usize = 0;
    while a < n && space_at(s, n, a)
        invariant
            a <= n,
            forall|j: int| 0 <= j < a ==> is_space(#[trigger] s@[j]),
        decreases n - a,
    {
        a = a + 1;
    }
    let mut b: usize = n;
    while b > a && space_at(s, n, b - 1)
        invariant
            a <= b <= n,
            forall|j: int| b <= j < n ==> is_space(#[trigger] s@[j]),
        decreases b,
    {
        b = b - 1;
    }
    if b <= a {
        // Nothing but whitespace.
        proof {
            assert(a == n);
            lemma_leading_spaces(s@, a as int);
            lemma_trailing_spaces(s@, 0);
        }
        return None;
    }
    proof {
        lemma_leading_spaces(s@, a as int);
        lemma_trailing_spaces(s@, b as int);
    }
    let t = s.substring_char(a, b);
    assert(t@ == trimmed(s@));
    let nt = b - a;
    assert(nt == t@.len());
    if nt != 19 {
        return None;
    }
    if !(digits_at_x(t, nt, 0, 4) && digits_at_x(t, nt, 5, 2) && digits_at_x(t, nt, 8, 2)
        && digits_at_x(t, nt, 11, 2) && digits_at_x(t, nt, 14, 2) && digits_at_x(t, nt, 17, 2)) {
        return None;
    }
    let c4 = t.get_char(4);
    let c7 = t.get_char(7);
    let c10 = t.get_char(10);
    let c13 = t.get_char(13);
    let c16 = t.get_char(16);
    if !(((c4 == ':' && c7 == ':') || (c4 == '-' && c7 == '-')) && c10 == ' ' && c13 == ':' && c16
        == ':') {
        return None;
    }
    let y = crate::text::parse_digits(t, 0, 4);
    let m = crate::text::parse_digits(t, 5, 7);
    let d = crate::text::parse_digits(t, 8, 10);
    let h = crate::text::parse_digits(t, 11, 13);
    let mi = crate::text::parse_digits(t, 14, 16);
    let sec = crate::text::parse_digits(t, 17, 19);
    if date_valid_x(y, m, d) && h < 24 && mi < 60 && sec < 60 {
        Some(
            UtcDateTime {
                year: y as u16,
                month: m as u8,
                day: d as u8,
                hour: h as u8,
                minute: mi as u8,
                second: sec as u8,
            },
        )
    } else {
        None
    }
}

/// The embedded source reads the first present tag among
/// date/time-original, date/time-digitized and the generic date/time, and
/// parses its text; a present but unparsable tag yields nothing (later
/// tags are not consulted).
pub open spec fn spec_exif_fields_date(
    original: Option<Seq<char>>,
    digitized: Option<Seq<char>>,
    generic: Option<Seq<char>>,
) -> Option<UtcDateTime> {
    match original {
        Some(t) => spec_exif_text_date(t),
        None => match digitized {
            Some(t) => spec_exif_text_date(t),
            None => match generic {
                Some(t) => spec_exif_text_date(t),
                None => None,
            },
        },
    }
}

/// View of an optional owned tag value.
pub open spec fn view_opt_string(s: Option<String>) -> Option<Seq<char>> {
    match s {
        Some(t) => Some(t@),
        None => None,
    }
}

/// Resolves the embedded capture time from the three tag values, in
/// preference order.
pub fn exif_date_from_fields(
    original: Option<String>,
    digitized: Option<String>,
    generic: Option<String>,
) -> (r: Option<UtcDateTime>)
    ensures
        r == spec_exif_fields_date(
            view_opt_string(original),
            view_opt_string(digitized),
            view_opt_string(generic),
        ),
        r.is_some() ==> r.unwrap().wf(),
{
    match original {
        Some(t) => parse_exif_datetime(t.as_str()),
        None => match digitized {
            Some(t) => parse_exif_datetime(t.as_str()),
            None => match generic {
                Some(t) => parse_exif_datetime(t.as_str()),
                None => None,
            },
        },
    }
}

// ------------------------------------------------------------------
// Trusted surface towards the metadata crates.
//
// Both decoders are deterministic in their input, so each decode result
// carries a name, and every boundary function has an exact contract
// over that name.
// ------------------------------------------------------------------
/// The three tag texts that decoding an image's embedded metadata block
/// yields: date/time-original, date/time-digitized and the generic
/// date/time, each absent when the tag (or any readable container) is
/// absent.  A function of the bytes alone.
pub uninterp spec fn exif_texts_of(bytes: Seq<u8>) -> (Option<Seq<char>>, Option<Seq<char>>, Option<Seq<char>>);

/// Relies on `exif::Reader::read_from_container`, `exif::Exif::get_field`
/// and `exif::Field::display_value`: decodes the embedded metadata block
/// of an image held in memory and hands out the displayed texts of its
/// three date/time tags.
#[verifier::external_body]
fn exif_datetime_texts(bytes: &Vec<u8>) -> (r: (Option<String>, Option<String>, Option<String>))
    ensures
        view_opt_string(r.0) == exif_texts_of(bytes@).0,
        view_opt_string(r.1) == exif_texts_of(bytes@).1,
        view_opt_string(r.2) == exif_texts_of(bytes@).2,
{
    let mut cur = std::io::Cursor::new(bytes.as_slice());
    let ex = match exif::Reader::new().read_from_container(&mut cur) {
        Ok(ex) => ex,
        Err(_) => return (None, None, None),
    };
    let original = ex.get_field(exif::Tag::DateTimeOriginal, exif::In::PRIMARY);
    let digitized = ex.get_field(exif::Tag::DateTimeDigitized, exif::In::PRIMARY);
    let generic = ex.get_field(exif::Tag::DateTime, exif::In::PRIMARY);
    (
        original.map(|f| f.display_value().with_unit(&ex).to_string()),
        digitized.map(|f| f.display_value().with_unit(&ex).to_string()),
        generic.map(|f| f.display_value().with_unit(&ex).to_string()),
    )
}

/// What the embedded source yields for an image's bytes: the decode's
/// first present tag text, parsed.
pub open spec fn spec_exif_bytes_date(bytes: Seq<u8>) -> Option<UtcDateTime> {
    let t = exif_texts_of(bytes);
    spec_exif_fields_date(t.0, t.1, t.2)
}

/// Reads the embedded capture time of an image held in memory: the tag
/// texts come from the metadata crate; the tag preference and the parse
/// are verified.
pub fn exif_date_from_bytes(bytes: &Vec<u8>) -> (r: Option<UtcDateTime>)
    ensures
        r == spec_exif_bytes_date(bytes@),
        r.is_some() ==> r.unwrap().wf(),
{
    let (original, digitized, generic) = exif_datetime_texts(bytes);
    exif_date_from_fields(original, digitized, generic)
}

// ------------------------------------------------------------------
// Sidecar JSON.
// ------------------------------------------------------------------
/// The two string-typed timestamp entries (`photoTakenTime.timestamp`
/// and `creationTime.timestamp`) that decoding a sidecar document
/// yields, each absent when its key is missing or its value is not a
/// string; no pair at all when the text is not valid JSON.  A function
/// of the text alone.
pub uninterp spec fn sidecar_fields_of(text: Seq<char>) -> Option<(Option<Seq<char>>, Option<Seq<char>>)>;

/// View of a decoded pair of timestamp texts.
pub open spec fn view_sidecar_pair(p: Option<(Option<String>, Option<String>)>) -> Option<
    (Option<Seq<char>>, Option<Seq<char>>),
> {
    match p {
        None => None,
        Some(q) => Some((view_opt_string(q.0), view_opt_string(q.1))),
    }
}

/// Relies on `serde_json::from_str` and `serde_json::Value::get` /
/// `as_str`: decodes a sidecar document into its two string-typed
/// timestamp entries.
#[verifier::external_body]
fn sidecar_fields(text: &str) -> (r: Option<(Option<String>, Option<String>)>)
    ensures
        view_sidecar_pair(r) == sidecar_fields_of(text@),
{
    let v: serde_json::Value = match serde_json::from_str(text) {
        Ok(v) => v,
        Err(_) => return None,
    };
    let taken = v.get("photoTakenTime").and_then(|t| t.get("timestamp"));
    let created = v.get("creationTime").and_then(|t| t.get("timestamp"));
    Some((
        taken.and_then(|t| t.as_str()).map(|s| s.to_string()),
        created.and_then(|t| t.as_str()).map(|s| s.to_string()),
    ))
}

/// View of the timestamp text of an optional sidecar entry.
pub open spec fn view_opt_timestamp(t: Option<GoogleTimestamp>) -> Option<Seq<char>> {
    match t {
        None => None,
        Some(g) => Some(g.timestamp@),
    }
}

/// Reads the two optional timestamp entries out of a sidecar document:
/// exactly the entries the JSON decode yields, and nothing when the
/// text is not valid JSON.
pub fn parse_sidecar_text(text: &str) -> (r: Option<PhotoMetadata>)
    ensures
        match sidecar_fields_of(text@) {
            None => r is None,
            Some(p) => r is Some && view_opt_timestamp(r.unwrap().photo_taken_time) == p.0
                && view_opt_timestamp(r.unwrap().creation_time) == p.1,
        },
{
    match sidecar_fields(text) {
        None => None,
        Some((taken, created)) => {
            let photo_taken_time = match taken {
                Some(s) => Some(GoogleTimestamp { timestamp: s }),
                None => None,
            };
            let creation_time = match created {
                Some(s) => Some(GoogleTimestamp { timestamp: s }),
                None => None,
            };
            Some(PhotoMetadata { photo_taken_time, creation_time })
        },
    }
}

/// What a parsed sidecar yields: the photo-taken timestamp when that
/// entry is present (even when its value fails to parse), else the
/// creation timestamp, else nothing.
pub open spec fn spec_sidecar_meta_date(meta: PhotoMetadata) -> Option<UtcDateTime> {
    match meta.photo_taken_time {
        Some(t) => spec_timestamp_date(t.timestamp@),
        None => match meta.creation_time {
            Some(c) => spec_timestamp_date(c.timestamp@),
            None => None,
        },
    }
}

/// Resolves the instant of a parsed sidecar: the photo-taken entry is
/// preferred over the creation entry; a present entry whose timestamp
/// does not parse yields nothing.
pub fn sidecar_date_from_meta(meta: &PhotoMetadata) -> (r: Option<UtcDateTime>)
    ensures
        r == spec_sidecar_meta_date(*meta),
        r.is_some() ==> r.unwrap().wf(),
{
    match &meta.photo_taken_time {
        Some(t) => timestamp_string_to_date(t.timestamp.as_str()),
        None => match &meta.creation_time {
            Some(c) => timestamp_string_to_date(c.timestamp.as_str()),
            None => None,
        },
    }
}

/// What a sidecar document given as text yields: the decoded
/// photo-taken entry when present (even when its value fails to parse),
/// else the decoded creation entry, else nothing.
pub open spec fn spec_sidecar_text_date(text: Seq<char>) -> Option<UtcDateTime> {
    match sidecar_fields_of(text) {
        None => None,
        Some(p) => match p.0 {
            Some(ts) => spec_timestamp_date(ts),
            None => match p.1 {
                Some(ts) => spec_timestamp_date(ts),
                None => None,
            },
        },
    }
}

/// Resolves the instant of a sidecar document given as text.
pub fn sidecar_date_from_text(text: &str) -> (r: Option<UtcDateTime>)
    ensures
        r == spec_sidecar_text_date(text@),
        r.is_some() ==> r.unwrap().wf(),
{
    match parse_sidecar_text(text) {
        None => None,
        Some(meta) => sidecar_date_from_meta(&meta),
    }
}

// ------------------------------------------------------------------
// Sidecar candidate paths.
// ------------------------------------------------------------------
/// Where the stem of `path` ends: right before the final `.` of its file
/// name when that name has an extension, at the end of `path` otherwise.
pub open spec fn stem_end(path: Seq<char>) -> int {
    let name = crate::fs_ops::file_name_of(path);
    let start = crate::fs_ops::after_last_dot(name);
    if start >= 2 {
        crate::fs_ops::file_name_start(path) + start - 1
    } else {
        path.len() as int
    }
}

/// `path` with its extension replaced by `json` (appended when the file
/// name has no extension).
pub open spec fn spec_with_json_extension(path: Seq<char>) -> Seq<char> {
    path.subrange(0, stem_end(path)) + ".json"@
}

/// The two sidecar paths tried for a media file, in order: the full
/// filename with `.json` appended, then the filename with its extension
/// replaced by `.json`.
pub fn sidecar_candidates(path: &str) -> (r: (String, String))
    ensures
        r.0@ == path@ + ".json"@,
        r.1@ == spec_with_json_extension(path@),
{
    let n = path.unicode_len();
    let mut full = path.to_owned();
    full.append(".json");
    let p = crate::fs_ops::scan_back(path, n, 0, '/');
    proof {
        crate::fs_ops::lemma_file_name_start(path@, p as int);
    }
    let q = crate::fs_ops::scan_back(path, n, p, '.');
    proof {
        let name = crate::fs_ops::file_name_of(path@);
        assert forall|j: int| (q - p) <= j < name.len() implies name[j] != '.' by {
            assert(name[j] == path@[j + p]);
        }
        if q > p {
            assert(name[q - p - 1] == path@[q - 1]);
        }
        crate::fs_ops::lemma_after_last_dot(name, q - p);
    }
    let cut: usize = if q - p >= 2 {
        q - 1
    } else {
        n
    };
    assert(cut == stem_end(path@));
    let stem = path.substring_char(0, cut);
    let mut replaced = stem.to_owned();
    replaced.append(".json");
    (full, replaced)
}

// ------------------------------------------------------------------
// The cascade.
// ------------------------------------------------------------------
/// First success of the ordered sources.
pub open spec fn spec_first_some(
    sidecar: Option<UtcDateTime>,
    embedded: Option<UtcDateTime>,
    from_filename: Option<UtcDateTime>,
) -> Option<UtcDateTime> {
    if sidecar is Some {
        sidecar
    } else if embedded is Some {
        embedded
    } else {
        from_filename
    }
}

/// The ordered fallback cascade over the three sources' results: the
/// first source that yielded an instant wins.  In particular a sidecar
/// result always beats an embedded-metadata result.
pub fn resolve_date(
    sidecar: Option<UtcDateTime>,
    embedded: Option<UtcDateTime>,
    from_filename: Option<UtcDateTime>,
) -> (r: Option<UtcDateTime>)
    ensures
        r == spec_first_some(sidecar, embedded, from_filename),
        sidecar is Some ==> r == sidecar,
        sidecar is None && embedded is Some ==> r == embedded,
        sidecar is None && embedded is None ==> r == from_filename,
{
    if sidecar.is_some() {
        sidecar
    } else if embedded.is_some() {
        embedded
    } else {
        from_filename
    }
}

/// View of an optional borrowed text.
pub open spec fn view_opt_str(s: Option<&str>) -> Option<Seq<char>> {
    match s {
        Some(t) => Some(t@),
        None => None,
    }
}

/// View of optional borrowed file content.
pub open spec fn view_opt_bytes(b: Option<&Vec<u8>>) -> Option<Seq<u8>> {
    match b {
        Some(v) => Some(v@),
        None => None,
    }
}

/// The sidecar source over the two candidate texts: the full-filename
/// candidate decides when it yields an instant; the stem candidate is
/// consulted only when the first is absent, malformed, or holds no
/// usable timestamp.
pub open spec fn spec_sidecar_source(
    full: Option<Seq<char>>,
    stem: Option<Seq<char>>,
) -> Option<UtcDateTime> {
    let first = match full {
        Some(t) => spec_sidecar_text_date(t),
        None => None,
    };
    if first is Some {
        first
    } else {
        match stem {
            Some(t) => spec_sidecar_text_date(t),
            None => None,
        }
    }
}

/// The embedded source over the optional file content.
pub open spec fn spec_exif_source(bytes: Option<Seq<u8>>) -> Option<UtcDateTime> {
    match bytes {
        Some(b) => spec_exif_bytes_date(b),
        None => None,
    }
}

/// What the whole cascade yields for one file's raw sources: the first
/// success of sidecar lookup (full candidate before stem candidate),
/// embedded metadata, and filename resolution, in that order.
pub open spec fn spec_determine_date(
    full: Option<Seq<char>>,
    stem: Option<Seq<char>>,
    bytes: Option<Seq<u8>>,
    filename: Seq<char>,
) -> Option<UtcDateTime> {
    spec_first_some(
        spec_sidecar_source(full, stem),
        spec_exif_source(bytes),
        spec_filename_date(filename),
    )
}

/// Resolves the capture date of one media file.  `sidecar_full` and
/// `sidecar_stem` are the texts of the two sidecar candidates that exist
/// on disk (full filename plus `.json` first, then the stem variant);
/// `image_bytes` is the file's content for embedded-metadata lookup.
/// Sources are consulted in order and later ones only when every earlier
/// one yielded nothing.
pub fn determine_date(
    sidecar_full: Option<&str>,
    sidecar_stem: Option<&str>,
    image_bytes: Option<&Vec<u8>>,
    filename: &str,
) -> (r: Option<UtcDateTime>)
    ensures
        r == spec_determine_date(
            view_opt_str(sidecar_full),
            view_opt_str(sidecar_stem),
            view_opt_bytes(image_bytes),
            filename@,
        ),
        r.is_some() ==> r.unwrap().wf(),
{
    let mut sidecar: Option<UtcDateTime> = match sidecar_full {
        Some(text) => sidecar_date_from_text(text),
        None => None,
    };
    if sidecar.is_none() {
        sidecar = match sidecar_stem {
            Some(text) => sidecar_date_from_text(text),
            None => None,
        };
    }
    let embedded: Option<UtcDateTime> = if sidecar.is_some() {
        None
    } else {
        match image_bytes {
            Some(bytes) => exif_date_from_bytes(bytes),
            None => None,
        }
    };
    let from_filename: Option<UtcDateTime> = if sidecar.is_some() || embedded.is_some() {
        None
    } else {
        parse_filename_date(filename)
    };
    resolve_date(sidecar, embedded, from_filename)
}

} // verus!
