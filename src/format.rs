//! Audio formats as told by a file's extension, and the library's errors.

use vstd::prelude::*;

use crate::path::{extension, extension_of, file_name_spec};

verus! {

/// The format of an audio file, derived from its extension.
#[derive(Clone, Copy, Debug, PartialEq, Eq, Structural)]
pub enum AudioFormat {
    Flac,
    Mp3,
    Unsupported,
}

/// What can go wrong while editing or converting a file.
#[derive(Debug, PartialEq, Eq)]
pub enum MetadataError {
    /// A copy into or out of the backup directory, or a directory read, failed.
    IoError,
    /// The file's extension (held here, empty when there is none) is not one
    /// the operation handles.
    UnsupportedFormat(String),
    /// An external program exited with a non-zero status or could not be started.
    ToolInvocationFailed,
    /// No title is left once the track-number prefix is taken off the file name
    /// (held here).
    InferenceFailed(String),
    /// A mutation failed and copying the backup over the file failed too: the
    /// file may be left half-written.
    RestoreFailed,
}

/// `c` is `lower`, or the ASCII capital of `lower`.
pub open spec fn folds_to(c: char, lower: char) -> bool {
    c == lower || ('a' <= lower <= 'z' && c as u32 + 32 == lower as u32)
}

/// `s` equals `lower` when ASCII capitals are read as small letters.
pub open spec fn equals_ignoring_case(s: Seq<char>, lower: Seq<char>) -> bool {
    s.len() == lower.len() && forall|i: int| 0 <= i < s.len() ==> folds_to(#[trigger] s[i], lower[i])
}

pub open spec fn flac_ext() -> Seq<char> {
    seq!['f', 'l', 'a', 'c']
}

pub open spec fn mp3_ext() -> Seq<char> {
    seq!['m', 'p', '3']
}

/// The format that an extension stands for, whatever the case of its letters.
pub open spec fn format_of_extension(e: Option<Seq<char>>) -> AudioFormat {
    match e {
        Some(x) => if equals_ignoring_case(x, flac_ext()) {
            AudioFormat::Flac
        } else if equals_ignoring_case(x, mp3_ext()) {
            AudioFormat::Mp3
        } else {
            AudioFormat::Unsupported
        },
        None => AudioFormat::Unsupported,
    }
}

/// The extension of the file that a path names, if any.
pub open spec fn path_extension(p: Seq<char>) -> Option<Seq<char>> {
    match file_name_spec(p) {
        Some(n) => extension_of(n),
        None => None,
    }
}

/// The format of the file that a path names.
pub open spec fn format_of(p: Seq<char>) -> AudioFormat {
    format_of_extension(path_extension(p))
}

/// The extension as an error reports it: empty where there is none.
pub open spec fn reported_extension(p: Seq<char>) -> Seq<char> {
    match path_extension(p) {
        Some(e) => e,
        None => Seq::empty(),
    }
}

fn equal_ignoring_case(s: &str, lower: &str) -> (r: bool)
    ensures
        r == equals_ignoring_case(s@, lower@),
{
    let n = s.unicode_len();
    if n != lower.unicode_len() {
        return false;
    }
    let mut i: usize = 0;
    while i < n
        invariant
            n == s@.len() == lower@.len(),
            i <= n,
            forall|j: int| 0 <= j < i ==> folds_to(#[trigger] s@[j], lower@[j]),
        decreases n - i,
    {
        let c = s.get_char(i);
        let l = lower.get_char(i);
        let same = c == l || ('a' <= l && l <= 'z' && (c as u32) + 32 == (l as u32));
        if !same {
            return false;
        }
        i = i + 1;
    }
    true
}

/// The format of an extension, read without regard to the case of its letters.
pub fn format_of_ext(ext: &str) -> (r: AudioFormat)
    ensures
        r == format_of_extension(Some(ext@)),
{
    let flac = "flac";
    let mp3 = "mp3";
    proof {
        reveal_strlit("flac");
        reveal_strlit("mp3");
    }
    assert(flac@ =~= flac_ext());
    assert(mp3@ =~= mp3_ext());
    if equal_ignoring_case(ext, flac) {
        AudioFormat::Flac
    } else if equal_ignoring_case(ext, mp3) {
        AudioFormat::Mp3
    } else {
        AudioFormat::Unsupported
    }
}

/// The format of the file that `path` names, by its extension: `flac` and
/// `mp3` in any case of letters; anything else, or no extension, is unsupported.
pub fn audio_format(path: &str) -> (r: AudioFormat)
    ensures
        r == format_of(path@),
{
    match extension(path) {
        Some(e) => format_of_ext(e.as_str()),
        None => AudioFormat::Unsupported,
    }
}

/// The error for a path whose format an operation does not handle.
pub fn unsupported(path: &str) -> (r: MetadataError)
    ensures
        r matches MetadataError::UnsupportedFormat(e) && e@ == reported_extension(path@),
{
    match extension(path) {
        Some(e) => MetadataError::UnsupportedFormat(e),
        None => MetadataError::UnsupportedFormat(String::new()),
    }
}

} // verus!
