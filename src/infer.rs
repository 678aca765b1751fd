//! Titles inferred from file names: a leading track number and its separator
//! are taken off the stem.
//!
//! Four prefixes are tried in turn, and the first that matches is removed:
//! digits, optional whitespace, a dash (hyphen, en dash or em dash), optional
//! whitespace (`"03 - Song"`); digits, a period, optional whitespace
//! (`"01. Song"`); digits, an underscore, optional whitespace (`"01_Song"`);
//! digits and whitespace (`"10 Song"`). Digits are those of any script
//! (`"٠٣ - Song"` too), whitespace is Unicode's. What is left is trimmed of
//! whitespace. A stem that no prefix matches is the title as it stands.

use vstd::prelude::*;

use crate::format::MetadataError;
use crate::path::{
    file_name_spec, file_stem, is_file_name, lemma_no_directory, lemma_stem_and_extension, stem_of,
};

verus! {

/// A decimal digit of any script: Unicode's general category Nd (Unicode 16).
pub open spec fn is_digit(c: char) -> bool {
    let u = c as u32;
    (0x30 <= u <= 0x39) || (0x660 <= u <= 0x669) || (0x6F0 <= u <= 0x6F9) || (0x7C0 <= u <= 0x7C9) ||
        (0x966 <= u <= 0x96F) || (0x9E6 <= u <= 0x9EF) || (0xA66 <= u <= 0xA6F) || (0xAE6 <= u <= 0xAEF) ||
        (0xB66 <= u <= 0xB6F) || (0xBE6 <= u <= 0xBEF) || (0xC66 <= u <= 0xC6F) || (0xCE6 <= u <= 0xCEF) ||
        (0xD66 <= u <= 0xD6F) || (0xDE6 <= u <= 0xDEF) || (0xE50 <= u <= 0xE59) || (0xED0 <= u <= 0xED9) ||
        (0xF20 <= u <= 0xF29) || (0x1040 <= u <= 0x1049) || (0x1090 <= u <= 0x1099) ||
        (0x17E0 <= u <= 0x17E9) || (0x1810 <= u <= 0x1819) || (0x1946 <= u <= 0x194F) ||
        (0x19D0 <= u <= 0x19D9) || (0x1A80 <= u <= 0x1A89) || (0x1A90 <= u <= 0x1A99) ||
        (0x1B50 <= u <= 0x1B59) || (0x1BB0 <= u <= 0x1BB9) || (0x1C40 <= u <= 0x1C49) ||
        (0x1C50 <= u <= 0x1C59) || (0xA620 <= u <= 0xA629) || (0xA8D0 <= u <= 0xA8D9) ||
        (0xA900 <= u <= 0xA909) || (0xA9D0 <= u <= 0xA9D9) || (0xA9F0 <= u <= 0xA9F9) ||
        (0xAA50 <= u <= 0xAA59) || (0xABF0 <= u <= 0xABF9) || (0xFF10 <= u <= 0xFF19) ||
        (0x104A0 <= u <= 0x104A9) || (0x10D30 <= u <= 0x10D39) || (0x10D40 <= u <= 0x10D49) ||
        (0x11066 <= u <= 0x1106F) || (0x110F0 <= u <= 0x110F9) || (0x11136 <= u <= 0x1113F) ||
        (0x111D0 <= u <= 0x111D9) || (0x112F0 <= u <= 0x112F9) || (0x11450 <= u <= 0x11459) ||
        (0x114D0 <= u <= 0x114D9) || (0x11650 <= u <= 0x11659) || (0x116C0 <= u <= 0x116C9) ||
        (0x116D0 <= u <= 0x116E3) || (0x11730 <= u <= 0x11739) || (0x118E0 <= u <= 0x118E9) ||
        (0x11950 <= u <= 0x11959) || (0x11BF0 <= u <= 0x11BF9) || (0x11C50 <= u <= 0x11C59) ||
        (0x11D50 <= u <= 0x11D59) || (0x11DA0 <= u <= 0x11DA9) || (0x11F50 <= u <= 0x11F59) ||
        (0x16130 <= u <= 0x16139) || (0x16A60 <= u <= 0x16A69) || (0x16AC0 <= u <= 0x16AC9) ||
        (0x16B50 <= u <= 0x16B59) || (0x16D70 <= u <= 0x16D79) || (0x1CCF0 <= u <= 0x1CCF9) ||
        (0x1D7CE <= u <= 0x1D7FF) || (0x1E140 <= u <= 0x1E149) || (0x1E2F0 <= u <= 0x1E2F9) ||
        (0x1E4F0 <= u <= 0x1E4F9) || (0x1E5F1 <= u <= 0x1E5FA) || (0x1E950 <= u <= 0x1E959) ||
        (0x1FBF0 <= u <= 0x1FBF9)
}

/// Unicode's White_Space characters.
pub open spec fn is_ws(c: char) -> bool {
    let u = c as u32;
    (0x09 <= u <= 0x0D) || u == 0x20 || u == 0x85 || u == 0xA0 || u == 0x1680 || (0x2000 <= u <= 0x200A)
        || u == 0x2028 || u == 0x2029 || u == 0x202F || u == 0x205F || u == 0x3000
}

/// A hyphen, an en dash or an em dash.
pub open spec fn is_dash(c: char) -> bool {
    c == '-' || c == '\u{2013}' || c == '\u{2014}'
}

/// Where the run of digits that starts at `i` ends.
pub open spec fn digits_end(s: Seq<char>, i: int) -> int
    decreases s.len() - i,
{
    if 0 <= i < s.len() && is_digit(s[i]) {
        digits_end(s, i + 1)
    } else {
        i
    }
}

/// Where the run of whitespace that starts at `i` ends.
pub open spec fn ws_end(s: Seq<char>, i: int) -> int
    decreases s.len() - i,
{
    if 0 <= i < s.len() && is_ws(s[i]) {
        ws_end(s, i + 1)
    } else {
        i
    }
}

/// Where the run of whitespace that ends at `k` starts.
pub open spec fn ws_start_before(s: Seq<char>, k: int) -> int
    decreases k,
{
    if 0 < k <= s.len() && is_ws(s[k - 1]) {
        ws_start_before(s, k - 1)
    } else {
        k
    }
}

/// The end of a leading "digits, whitespace, dash, whitespace", or 0.
pub open spec fn dash_prefix_end(s: Seq<char>) -> int {
    let d = digits_end(s, 0);
    let w = ws_end(s, d);
    if d > 0 && w < s.len() && is_dash(s[w]) {
        ws_end(s, w + 1)
    } else {
        0
    }
}

/// The end of a leading "digits, `mark`, whitespace", or 0.
pub open spec fn mark_prefix_end(s: Seq<char>, mark: char) -> int {
    let d = digits_end(s, 0);
    if d > 0 && d < s.len() && s[d] == mark {
        ws_end(s, d + 1)
    } else {
        0
    }
}

/// The end of a leading "digits, whitespace" (at least one), or 0.
pub open spec fn space_prefix_end(s: Seq<char>) -> int {
    let d = digits_end(s, 0);
    let w = ws_end(s, d);
    if d > 0 && w > d {
        w
    } else {
        0
    }
}

/// The end of the first prefix that matches, in order of priority; 0 where none does.
pub open spec fn track_prefix_end(s: Seq<char>) -> int {
    if dash_prefix_end(s) > 0 {
        dash_prefix_end(s)
    } else if mark_prefix_end(s, '.') > 0 {
        mark_prefix_end(s, '.')
    } else if mark_prefix_end(s, '_') > 0 {
        mark_prefix_end(s, '_')
    } else {
        space_prefix_end(s)
    }
}

/// `s` without whitespace at either end.
pub open spec fn trim(s: Seq<char>) -> Seq<char> {
    let a = ws_end(s, 0);
    let b = ws_start_before(s, s.len() as int);
    if a < b {
        s.subrange(a, b)
    } else {
        Seq::empty()
    }
}

/// The title that a stem gives: without its track prefix and trimmed, or the
/// stem itself where no prefix matches. It may be empty.
pub open spec fn title_of_stem(s: Seq<char>) -> Seq<char> {
    let e = track_prefix_end(s);
    if e > 0 {
        trim(s.subrange(e, s.len() as int))
    } else {
        s
    }
}

/// The title inferred from the file that a path names; `None` where the path
/// names no file or no title is left.
pub open spec fn inferred_title(p: Seq<char>) -> Option<Seq<char>> {
    match file_name_spec(p) {
        Some(n) => if title_of_stem(stem_of(n)).len() > 0 {
            Some(title_of_stem(stem_of(n)))
        } else {
            None
        },
        None => None,
    }
}

proof fn lemma_digits_end_bounds(s: Seq<char>, i: int)
    requires
        0 <= i <= s.len(),
    ensures
        i <= digits_end(s, i) <= s.len(),
        forall|j: int| i <= j < digits_end(s, i) ==> is_digit(#[trigger] s[j]),
        digits_end(s, i) < s.len() ==> !is_digit(s[digits_end(s, i)]),
    decreases s.len() - i,
{
    if i < s.len() && is_digit(s[i]) {
        lemma_digits_end_bounds(s, i + 1);
    }
}

proof fn lemma_ws_end_bounds(s: Seq<char>, i: int)
    requires
        0 <= i <= s.len(),
    ensures
        i <= ws_end(s, i) <= s.len(),
        forall|j: int| i <= j < ws_end(s, i) ==> is_ws(#[trigger] s[j]),
        ws_end(s, i) < s.len() ==> !is_ws(s[ws_end(s, i)]),
    decreases s.len() - i,
{
    if i < s.len() && is_ws(s[i]) {
        lemma_ws_end_bounds(s, i + 1);
    }
}

proof fn lemma_ws_start_bounds(s: Seq<char>, k: int)
    requires
        0 <= k <= s.len(),
    ensures
        0 <= ws_start_before(s, k) <= k,
        forall|j: int| ws_start_before(s, k) <= j < k ==> is_ws(#[trigger] s[j]),
        ws_start_before(s, k) > 0 ==> !is_ws(s[ws_start_before(s, k) - 1]),
    decreases k,
{
    if k > 0 && is_ws(s[k - 1]) {
        lemma_ws_start_bounds(s, k - 1);
    }
}

fn is_digit_char(c: char) -> (r: bool)
    ensures
        r == is_digit(c),
{
    let u = c as u32;
    (0x30 <= u && u <= 0x39) || (0x660 <= u && u <= 0x669) || (0x6F0 <= u && u <= 0x6F9) ||
        (0x7C0 <= u && u <= 0x7C9) || (0x966 <= u && u <= 0x96F) || (0x9E6 <= u && u <= 0x9EF) ||
        (0xA66 <= u && u <= 0xA6F) || (0xAE6 <= u && u <= 0xAEF) || (0xB66 <= u && u <= 0xB6F) ||
        (0xBE6 <= u && u <= 0xBEF) || (0xC66 <= u && u <= 0xC6F) || (0xCE6 <= u && u <= 0xCEF) ||
        (0xD66 <= u && u <= 0xD6F) || (0xDE6 <= u && u <= 0xDEF) || (0xE50 <= u && u <= 0xE59) ||
        (0xED0 <= u && u <= 0xED9) || (0xF20 <= u && u <= 0xF29) || (0x1040 <= u && u <= 0x1049) ||
        (0x1090 <= u && u <= 0x1099) || (0x17E0 <= u && u <= 0x17E9) || (0x1810 <= u && u <= 0x1819) ||
        (0x1946 <= u && u <= 0x194F) || (0x19D0 <= u && u <= 0x19D9) || (0x1A80 <= u && u <= 0x1A89) ||
        (0x1A90 <= u && u <= 0x1A99) || (0x1B50 <= u && u <= 0x1B59) || (0x1BB0 <= u && u <= 0x1BB9) ||
        (0x1C40 <= u && u <= 0x1C49) || (0x1C50 <= u && u <= 0x1C59) || (0xA620 <= u && u <= 0xA629) ||
        (0xA8D0 <= u && u <= 0xA8D9) || (0xA900 <= u && u <= 0xA909) || (0xA9D0 <= u && u <= 0xA9D9) ||
        (0xA9F0 <= u && u <= 0xA9F9) || (0xAA50 <= u && u <= 0xAA59) || (0xABF0 <= u && u <= 0xABF9) ||
        (0xFF10 <= u && u <= 0xFF19) || (0x104A0 <= u && u <= 0x104A9) || (0x10D30 <= u && u <= 0x10D39) ||
        (0x10D40 <= u && u <= 0x10D49) || (0x11066 <= u && u <= 0x1106F) || (0x110F0 <= u && u <= 0x110F9) ||
        (0x11136 <= u && u <= 0x1113F) || (0x111D0 <= u && u <= 0x111D9) || (0x112F0 <= u && u <= 0x112F9) ||
        (0x11450 <= u && u <= 0x11459) || (0x114D0 <= u && u <= 0x114D9) || (0x11650 <= u && u <= 0x11659) ||
        (0x116C0 <= u && u <= 0x116C9) || (0x116D0 <= u && u <= 0x116E3) || (0x11730 <= u && u <= 0x11739) ||
        (0x118E0 <= u && u <= 0x118E9) || (0x11950 <= u && u <= 0x11959) || (0x11BF0 <= u && u <= 0x11BF9) ||
        (0x11C50 <= u && u <= 0x11C59) || (0x11D50 <= u && u <= 0x11D59) || (0x11DA0 <= u && u <= 0x11DA9) ||
        (0x11F50 <= u && u <= 0x11F59) || (0x16130 <= u && u <= 0x16139) || (0x16A60 <= u && u <= 0x16A69) ||
        (0x16AC0 <= u && u <= 0x16AC9) || (0x16B50 <= u && u <= 0x16B59) || (0x16D70 <= u && u <= 0x16D79) ||
        (0x1CCF0 <= u && u <= 0x1CCF9) || (0x1D7CE <= u && u <= 0x1D7FF) || (0x1E140 <= u && u <= 0x1E149) ||
        (0x1E2F0 <= u && u <= 0x1E2F9) || (0x1E4F0 <= u && u <= 0x1E4F9) || (0x1E5F1 <= u && u <= 0x1E5FA) ||
        (0x1E950 <= u && u <= 0x1E959) || (0x1FBF0 <= u && u <= 0x1FBF9)
}

fn is_ws_char(c: char) -> (r: bool)
    ensures
        r == is_ws(c),
{
    let u = c as u32;
    (0x09 <= u && u <= 0x0D) || u == 0x20 || u == 0x85 || u == 0xA0 || u == 0x1680 || (0x2000 <= u && u
        <= 0x200A) || u == 0x2028 || u == 0x2029 || u == 0x202F || u == 0x205F || u == 0x3000
}

fn is_dash_char(c: char) -> (r: bool)
    ensures
        r == is_dash(c),
{
    c == '-' || c == '\u{2013}' || c == '\u{2014}'
}

fn find_digits_end(s: &str, len: usize, i: usize) -> (r: usize)
    requires
        len == s@.len(),
        i <= len,
    ensures
        r as int == digits_end(s@, i as int),
        r <= len,
{
    let mut j = i;
    while j < len && is_digit_char(s.get_char(j))
        invariant
            len == s@.len(),
            i <= j <= len,
            digits_end(s@, i as int) == digits_end(s@, j as int),
        decreases len - j,
    {
        j = j + 1;
    }
    j
}

fn find_ws_end(s: &str, len: usize, i: usize) -> (r: usize)
    requires
        len == s@.len(),
        i <= len,
    ensures
        r as int == ws_end(s@, i as int),
        r <= len,
{
    let mut j = i;
    while j < len && is_ws_char(s.get_char(j))
        invariant
            len == s@.len(),
            i <= j <= len,
            ws_end(s@, i as int) == ws_end(s@, j as int),
        decreases len - j,
    {
        j = j + 1;
    }
    j
}

fn find_ws_start_before(s: &str, len: usize, k: usize) -> (r: usize)
    requires
        len == s@.len(),
        k <= len,
    ensures
        r as int == ws_start_before(s@, k as int),
        r <= k,
{
    let mut j = k;
    while j > 0 && is_ws_char(s.get_char(j - 1))
        invariant
            len == s@.len(),
            j <= k <= len,
            ws_start_before(s@, k as int) == ws_start_before(s@, j as int),
        decreases j,
    {
        j = j - 1;
    }
    j
}

/// How many characters of `stem` its track prefix takes: 0 where no prefix matches.
pub fn track_prefix_len(stem: &str) -> (r: usize)
    ensures
        r as int == track_prefix_end(stem@),
{
    let len = stem.unicode_len();
    let d = find_digits_end(stem, len, 0);
    if d == 0 {
        return 0;
    }
    let w = find_ws_end(stem, len, d);
    if w < len && is_dash_char(stem.get_char(w)) {
        let e = find_ws_end(stem, len, w + 1);
        proof {
            lemma_ws_end_bounds(stem@, w + 1);
        }
        return e;
    }
    if d < len {
        let c = stem.get_char(d);
        if c == '.' || c == '_' {
            proof {
                lemma_ws_end_bounds(stem@, d + 1);
            }
            return find_ws_end(stem, len, d + 1);
        }
    }
    if w > d {
        w
    } else {
        0
    }
}

/// `s` without whitespace at either end.
pub fn trim_whitespace(s: &str) -> (r: String)
    ensures
        r@ == trim(s@),
{
    let len = s.unicode_len();
    let a = find_ws_end(s, len, 0);
    let b = find_ws_start_before(s, len, len);
    if a < b {
        String::from_str(s.substring_char(a, b))
    } else {
        String::new()
    }
}

/// The title that a file-name stem gives: without its track prefix and
/// trimmed, or the stem as it is where no prefix matches. It may be empty.
pub fn title_from_stem(stem: &str) -> (r: String)
    ensures
        r@ == title_of_stem(stem@),
{
    let e = track_prefix_len(stem);
    if e == 0 {
        return String::from_str(stem);
    }
    proof {
        lemma_prefix_end_bounds(stem@);
    }
    let len = stem.unicode_len();
    trim_whitespace(stem.substring_char(e, len))
}

proof fn lemma_prefix_end_bounds(s: Seq<char>)
    ensures
        0 <= track_prefix_end(s) <= s.len(),
{
    lemma_digits_end_bounds(s, 0);
    let d = digits_end(s, 0);
    lemma_ws_end_bounds(s, d);
    let w = ws_end(s, d);
    if w < s.len() {
        lemma_ws_end_bounds(s, w + 1);
    }
    if d < s.len() {
        lemma_ws_end_bounds(s, d + 1);
    }
}

/// The title of the file at `file_path`, inferred from its name: the stem
/// without a leading track number and separator. A name that leaves no title,
/// or a path that names no file, is an inference error holding the stem (or
/// the path).
pub fn infer_track_name_from_filename(file_path: &str) -> (r: Result<String, MetadataError>)
    ensures
        match inferred_title(file_path@) {
            Some(t) => r matches Ok(s) && s@ == t,
            None => r matches Err(MetadataError::InferenceFailed(_)),
        },
{
    match file_stem(file_path) {
        None => Err(MetadataError::InferenceFailed(String::from_str(file_path))),
        Some(stem) => {
            let t = title_from_stem(stem.as_str());
            if t.as_str().unicode_len() == 0 {
                Err(MetadataError::InferenceFailed(stem))
            } else {
                Ok(t)
            }
        },
    }
}

/// One or more decimal digits.
pub open spec fn all_digits(d: Seq<char>) -> bool {
    d.len() > 0 && forall|i: int| 0 <= i < d.len() ==> is_digit(#[trigger] d[i])
}

/// Whitespace only (possibly nothing).
pub open spec fn all_ws(w: Seq<char>) -> bool {
    forall|i: int| 0 <= i < w.len() ==> is_ws(#[trigger] w[i])
}

/// Text that stands as a title by itself: not empty, no whitespace at either
/// end, no '/'.
pub open spec fn is_plain_title(x: Seq<char>) -> bool {
    &&& x.len() > 0
    &&& !is_ws(x[0])
    &&& !is_ws(x.last())
    &&& forall|i: int| 0 <= i < x.len() ==> x[i] != '/'
}

/// An extension: no '.' and no '/'.
pub open spec fn is_plain_extension(e: Seq<char>) -> bool {
    forall|i: int| 0 <= i < e.len() ==> e[i] != '.' && e[i] != '/'
}

/// The file name made of `stem`, a '.' and `ext`.
pub open spec fn file_named(stem: Seq<char>, ext: Seq<char>) -> Seq<char> {
    stem + seq!['.'] + ext
}

proof fn lemma_digits_end_at(s: Seq<char>, i: int, j: int)
    requires
        0 <= i <= j <= s.len(),
        forall|k: int| i <= k < j ==> is_digit(#[trigger] s[k]),
        j == s.len() || !is_digit(s[j]),
    ensures
        digits_end(s, i) == j,
    decreases j - i,
{
    if i < j {
        lemma_digits_end_at(s, i + 1, j);
    }
}

proof fn lemma_ws_end_at(s: Seq<char>, i: int, j: int)
    requires
        0 <= i <= j <= s.len(),
        forall|k: int| i <= k < j ==> is_ws(#[trigger] s[k]),
        j == s.len() || !is_ws(s[j]),
    ensures
        ws_end(s, i) == j,
    decreases j - i,
{
    if i < j {
        lemma_ws_end_at(s, i + 1, j);
    }
}

proof fn lemma_plain_title_trimmed(x: Seq<char>)
    requires
        is_plain_title(x),
    ensures
        trim(x) == x,
{
    assert(ws_end(x, 0) == 0);
    assert(ws_start_before(x, x.len() as int) == x.len());
    assert(x.subrange(0, x.len() as int) =~= x);
}

/// The title that a file name made of a stem and an extension gives is the
/// title of the stem.
proof fn lemma_title_of_file_named(stem: Seq<char>, ext: Seq<char>)
    requires
        stem.len() > 0,
        forall|i: int| 0 <= i < stem.len() ==> stem[i] != '/',
        is_plain_extension(ext),
        is_file_name(file_named(stem, ext)),
    ensures
        inferred_title(file_named(stem, ext)) == (if title_of_stem(stem).len() > 0 {
            Some(title_of_stem(stem))
        } else {
            None
        }),
{
    let n = file_named(stem, ext);
    assert forall|i: int| 0 <= i < n.len() implies n[i] != '/' by {
        if i < stem.len() {
            assert(n[i] == stem[i]);
        } else if i > stem.len() {
            assert(n[i] == ext[i - stem.len() - 1]);
        }
    }
    lemma_no_directory(n);
    lemma_stem_and_extension(stem, ext);
}

/// A file name that starts with digits is no "." or "..".
proof fn lemma_digit_led_name(n: Seq<char>)
    requires
        n.len() > 1,
        is_digit(n[0]),
    ensures
        is_file_name(n),
{
    if n == seq!['.', '.'] {
        assert(n[0] == '.');
    }
}

/// `"NN - X.ext"` gives the title `X`: digits, whitespace, a dash and
/// whitespace before the title are taken off.
pub proof fn lemma_title_after_dash(nn: Seq<char>, w1: Seq<char>, dash: char, w2: Seq<char>, x: Seq<char>, ext: Seq<char>)
    requires
        all_digits(nn),
        all_ws(w1),
        is_dash(dash),
        all_ws(w2),
        is_plain_title(x),
        is_plain_extension(ext),
    ensures
        inferred_title(file_named(nn + w1 + seq![dash] + w2 + x, ext)) == Some(x),
{
    let s = nn + w1 + seq![dash] + w2 + x;
    let a = nn.len() as int;
    let b = a + w1.len();
    let c = b + 1;
    let e = c + w2.len();
    assert forall|k: int| 0 <= k < a implies is_digit(#[trigger] s[k]) by {
        assert(s[k] == nn[k]);
    }
    assert forall|k: int| a <= k < b implies is_ws(#[trigger] s[k]) by {
        assert(s[k] == w1[k - a]);
    }
    assert forall|k: int| c <= k < e implies is_ws(#[trigger] s[k]) by {
        assert(s[k] == w2[k - c]);
    }
    assert(s[b] == dash);
    assert(s[e] == x[0]);
    lemma_digits_end_at(s, 0, a);
    lemma_ws_end_at(s, a, b);
    lemma_ws_end_at(s, c, e);
    assert(dash_prefix_end(s) == e);
    assert(s.subrange(e, s.len() as int) =~= x);
    lemma_plain_title_trimmed(x);
    assert forall|i: int| 0 <= i < s.len() implies s[i] != '/' by {
        if i >= e {
            assert(s[i] == x[i - e]);
        }
    }
    lemma_digit_led_name(file_named(s, ext));
    lemma_title_of_file_named(s, ext);
}

/// `"NN<mark> X.ext"`, where the mark is a period or an underscore, gives the
/// title `X`.
pub proof fn lemma_title_after_mark(nn: Seq<char>, mark: char, w: Seq<char>, x: Seq<char>, ext: Seq<char>)
    requires
        all_digits(nn),
        mark == '.' || mark == '_',
        all_ws(w),
        is_plain_title(x),
        is_plain_extension(ext),
    ensures
        inferred_title(file_named(nn + seq![mark] + w + x, ext)) == Some(x),
{
    let s = nn + seq![mark] + w + x;
    let a = nn.len() as int;
    let c = a + 1;
    let e = c + w.len();
    assert forall|k: int| 0 <= k < a implies is_digit(#[trigger] s[k]) by {
        assert(s[k] == nn[k]);
    }
    assert forall|k: int| c <= k < e implies is_ws(#[trigger] s[k]) by {
        assert(s[k] == w[k - c]);
    }
    assert(s[a] == mark);
    assert(s[e] == x[0]);
    lemma_digits_end_at(s, 0, a);
    lemma_ws_end_at(s, a, a);
    lemma_ws_end_at(s, c, e);
    assert(dash_prefix_end(s) == 0);
    assert(track_prefix_end(s) == e);
    assert(s.subrange(e, s.len() as int) =~= x);
    lemma_plain_title_trimmed(x);
    assert forall|i: int| 0 <= i < s.len() implies s[i] != '/' by {
        if i >= e {
            assert(s[i] == x[i - e]);
        }
    }
    lemma_digit_led_name(file_named(s, ext));
    lemma_title_of_file_named(s, ext);
}

/// `"NN X.ext"` gives the title `X`, where `X` does not begin with a dash
/// (which would make the dash prefix match first).
pub proof fn lemma_title_after_space(nn: Seq<char>, w: Seq<char>, x: Seq<char>, ext: Seq<char>)
    requires
        all_digits(nn),
        w.len() > 0,
        all_ws(w),
        is_plain_title(x),
        !is_dash(x[0]),
        is_plain_extension(ext),
    ensures
        inferred_title(file_named(nn + w + x, ext)) == Some(x),
{
    let s = nn + w + x;
    let a = nn.len() as int;
    let e = a + w.len();
    assert forall|k: int| 0 <= k < a implies is_digit(#[trigger] s[k]) by {
        assert(s[k] == nn[k]);
    }
    assert forall|k: int| a <= k < e implies is_ws(#[trigger] s[k]) by {
        assert(s[k] == w[k - a]);
    }
    assert(s[a] == w[0]);
    assert(s[e] == x[0]);
    lemma_digits_end_at(s, 0, a);
    lemma_ws_end_at(s, a, e);
    assert(dash_prefix_end(s) == 0);
    assert(track_prefix_end(s) == e);
    assert(s.subrange(e, s.len() as int) =~= x);
    lemma_plain_title_trimmed(x);
    assert forall|i: int| 0 <= i < s.len() implies s[i] != '/' by {
        if i >= e {
            assert(s[i] == x[i - e]);
        }
    }
    lemma_digit_led_name(file_named(s, ext));
    lemma_title_of_file_named(s, ext);
}

/// `"X.ext"` gives the title `X` as it stands when no track prefix matches `X`.
pub proof fn lemma_title_without_prefix(x: Seq<char>, ext: Seq<char>)
    requires
        x.len() > 0,
        forall|i: int| 0 <= i < x.len() ==> x[i] != '/',
        track_prefix_end(x) == 0,
        is_plain_extension(ext),
        is_file_name(file_named(x, ext)),
    ensures
        inferred_title(file_named(x, ext)) == Some(x),
{
    lemma_title_of_file_named(x, ext);
}

/// A stem of digits, then whitespace, a dash (or, with no whitespace before
/// it, a period or an underscore), then only whitespace, leaves no title: the
/// inference fails rather than give an empty one.
pub proof fn lemma_no_title_after_separator(nn: Seq<char>, w1: Seq<char>, mark: char, w2: Seq<char>, ext: Seq<char>)
    requires
        all_digits(nn),
        all_ws(w1),
        is_dash(mark) || (w1.len() == 0 && (mark == '.' || mark == '_')),
        all_ws(w2),
        is_plain_extension(ext),
    ensures
        inferred_title(file_named(nn + w1 + seq![mark] + w2, ext)) is None,
{
    let s = nn + w1 + seq![mark] + w2;
    let a = nn.len() as int;
    let b = a + w1.len();
    let c = b + 1;
    assert forall|k: int| 0 <= k < a implies is_digit(#[trigger] s[k]) by {
        assert(s[k] == nn[k]);
    }
    assert forall|k: int| a <= k < b implies is_ws(#[trigger] s[k]) by {
        assert(s[k] == w1[k - a]);
    }
    assert forall|k: int| c <= k < s.len() implies is_ws(#[trigger] s[k]) by {
        assert(s[k] == w2[k - c]);
    }
    assert(s[b] == mark);
    lemma_digits_end_at(s, 0, a);
    lemma_ws_end_at(s, a, b);
    lemma_ws_end_at(s, c, s.len() as int);
    assert(track_prefix_end(s) == s.len());
    assert(s.subrange(s.len() as int, s.len() as int) =~= Seq::<char>::empty());
    assert forall|i: int| 0 <= i < s.len() implies s[i] != '/' by {
        if i > b {
            assert(s[i] == w2[i - c]);
        }
    }
    lemma_digit_led_name(file_named(s, ext));
    lemma_title_of_file_named(s, ext);
}

/// A stem of digits and whitespace only leaves no title either.
pub proof fn lemma_no_title_after_spaces(nn: Seq<char>, w: Seq<char>, ext: Seq<char>)
    requires
        all_digits(nn),
        w.len() > 0,
        all_ws(w),
        is_plain_extension(ext),
    ensures
        inferred_title(file_named(nn + w, ext)) is None,
{
    let s = nn + w;
    let a = nn.len() as int;
    assert forall|k: int| 0 <= k < a implies is_digit(#[trigger] s[k]) by {
        assert(s[k] == nn[k]);
    }
    assert forall|k: int| a <= k < s.len() implies is_ws(#[trigger] s[k]) by {
        assert(s[k] == w[k - a]);
    }
    assert(s[a] == w[0]);
    lemma_digits_end_at(s, 0, a);
    lemma_ws_end_at(s, a, s.len() as int);
    assert(dash_prefix_end(s) == 0);
    assert(track_prefix_end(s) == s.len());
    assert(s.subrange(s.len() as int, s.len() as int) =~= Seq::<char>::empty());
    assert forall|i: int| 0 <= i < s.len() implies s[i] != '/' by {
        if i >= a {
            assert(s[i] == w[i - a]);
        }
    }
    lemma_digit_led_name(file_named(s, ext));
    lemma_title_of_file_named(s, ext);
}

} // verus!
