//! Paths as strings: the last component, its stem and extension, joining.

use vstd::prelude::*;

verus! {

/// The text of each string.
pub open spec fn string_views(a: Seq<String>) -> Seq<Seq<char>> {
    a.map_values(|s: String| s@)
}

/// Index just past the last '/' among the first `n` characters of `p`, or 0.
pub open spec fn name_start_upto(p: Seq<char>, n: int) -> int
    decreases n,
{
    if n <= 0 {
        0
    } else if p[n - 1] == '/' {
        n
    } else {
        name_start_upto(p, n - 1)
    }
}

/// Where the last component of `p` begins.
pub open spec fn name_start(p: Seq<char>) -> int {
    name_start_upto(p, p.len() as int)
}

/// The last component of a path: all that follows its last '/'.
pub open spec fn last_component(p: Seq<char>) -> Seq<char> {
    p.subrange(name_start(p), p.len() as int)
}

/// A path names a file when its last component is neither empty, "." nor "..".
pub open spec fn is_file_name(n: Seq<char>) -> bool {
    n.len() > 0 && n != seq!['.'] && n != seq!['.', '.']
}

/// Index of the last '.' among the first `k` characters of `n`, or -1.
pub open spec fn last_dot_upto(n: Seq<char>, k: int) -> int
    decreases k,
{
    if k <= 0 {
        -1
    } else if n[k - 1] == '.' {
        k - 1
    } else {
        last_dot_upto(n, k - 1)
    }
}

pub open spec fn last_dot(n: Seq<char>) -> int {
    last_dot_upto(n, n.len() as int)
}

/// A file name has an extension when it holds a '.' that is not its first character.
pub open spec fn has_extension(n: Seq<char>) -> bool {
    last_dot(n) > 0
}

/// The file name without its extension.
pub open spec fn stem_of(n: Seq<char>) -> Seq<char> {
    if has_extension(n) {
        n.subrange(0, last_dot(n))
    } else {
        n
    }
}

/// What follows the last '.' of the file name, if it has an extension.
pub open spec fn extension_of(n: Seq<char>) -> Option<Seq<char>> {
    if has_extension(n) {
        Some(n.subrange(last_dot(n) + 1, n.len() as int))
    } else {
        None
    }
}

/// The file name of a path, where it has one.
pub open spec fn file_name_spec(p: Seq<char>) -> Option<Seq<char>> {
    if is_file_name(last_component(p)) {
        Some(last_component(p))
    } else {
        None
    }
}

/// `name` placed inside directory `dir`, with one '/' between them.
pub open spec fn join_spec(dir: Seq<char>, name: Seq<char>) -> Seq<char> {
    if dir.len() == 0 {
        name
    } else if dir[dir.len() - 1] == '/' {
        dir + name
    } else {
        dir + seq!['/'] + name
    }
}

/// `p` with the extension of its last component replaced by (or extended with) `ext`.
pub open spec fn with_extension_spec(p: Seq<char>, ext: Seq<char>) -> Seq<char> {
    p.subrange(0, name_start(p)) + stem_of(last_component(p)) + seq!['.'] + ext
}

proof fn lemma_name_start_bounds(p: Seq<char>, n: int)
    requires
        0 <= n <= p.len(),
    ensures
        0 <= name_start_upto(p, n) <= n,
        forall|j: int| name_start_upto(p, n) <= j < n ==> p[j] != '/',
        name_start_upto(p, n) > 0 ==> p[name_start_upto(p, n) - 1] == '/',
    decreases n,
{
    if n > 0 && p[n - 1] != '/' {
        lemma_name_start_bounds(p, n - 1);
    }
}

proof fn lemma_last_dot_bounds(s: Seq<char>, k: int)
    requires
        0 <= k <= s.len(),
    ensures
        -1 <= last_dot_upto(s, k) < k,
        last_dot_upto(s, k) >= 0 ==> s[last_dot_upto(s, k)] == '.',
        forall|j: int| last_dot_upto(s, k) < j < k ==> s[j] != '.',
    decreases k,
{
    if k > 0 && s[k - 1] != '.' {
        lemma_last_dot_bounds(s, k - 1);
    }
}

fn find_name_start(p: &str) -> (r: usize)
    ensures
        r as int == name_start(p@),
        r <= p@.len(),
{
    let len = p.unicode_len();
    let mut i: usize = len;
    while i > 0
        invariant
            i <= len == p@.len(),
            name_start(p@) == name_start_upto(p@, i as int),
        decreases i,
    {
        if p.get_char(i - 1) == '/' {
            return i;
        }
        i = i - 1;
    }
    0
}

fn find_last_dot(n: &str) -> (r: Option<usize>)
    ensures
        match r {
            Some(k) => k as int == last_dot(n@),
            None => last_dot(n@) == -1,
        },
{
    let len = n.unicode_len();
    let mut k: usize = len;
    while k > 0
        invariant
            k <= len == n@.len(),
            last_dot(n@) == last_dot_upto(n@, k as int),
        decreases k,
    {
        if n.get_char(k - 1) == '.' {
            return Some(k - 1);
        }
        k = k - 1;
    }
    None
}

/// The last component of `path` when it names a file (not empty, "." or "..").
pub fn file_name(path: &str) -> (r: Option<String>)
    ensures
        match r {
            Some(n) => file_name_spec(path@) == Some(n@),
            None => file_name_spec(path@) is None,
        },
{
    let start = find_name_start(path);
    let len = path.unicode_len();
    let name = path.substring_char(start, len);
    let n = name.unicode_len();
    if n == 0 {
        return None;
    }
    if name.get_char(0) == '.' && (n == 1 || (n == 2 && name.get_char(1) == '.')) {
        assert(n == 1 ==> name@ =~= seq!['.']);
        assert(n == 2 ==> name@ =~= seq!['.', '.']);
        return None;
    }
    assert(name@ != seq!['.'] && name@ != seq!['.', '.']) by {
        if name@ == seq!['.'] {
            assert(name@[0] == '.');
        }
        if name@ == seq!['.', '.'] {
            assert(name@[0] == '.' && name@[1] == '.');
        }
    }
    Some(String::from_str(name))
}

/// The file name of `path` without its extension.
pub fn file_stem(path: &str) -> (r: Option<String>)
    ensures
        match r {
            Some(s) => file_name_spec(path@) matches Some(n) && s@ == stem_of(n),
            None => file_name_spec(path@) is None,
        },
{
    match file_name(path) {
        None => None,
        Some(name) => {
            let dot = find_last_dot(name.as_str());
            match dot {
                Some(k) if k > 0 => {
                    proof {
                        lemma_last_dot_bounds(name@, name@.len() as int);
                    }
                    Some(String::from_str(name.as_str().substring_char(0, k)))
                },
                _ => Some(name),
            }
        },
    }
}

/// The extension of the file that `path` names: what follows the last '.' of
/// its file name, where that '.' is not the name's first character.
pub fn extension(path: &str) -> (r: Option<String>)
    ensures
        match r {
            Some(e) => file_name_spec(path@) matches Some(n) && extension_of(n) == Some(e@),
            None => file_name_spec(path@) matches Some(n) ==> extension_of(n) is None,
        },
{
    match file_name(path) {
        None => None,
        Some(name) => {
            let dot = find_last_dot(name.as_str());
            match dot {
                Some(k) if k > 0 => {
                    proof {
                        lemma_last_dot_bounds(name@, name@.len() as int);
                    }
                    let len = name.as_str().unicode_len();
                    Some(String::from_str(name.as_str().substring_char(k + 1, len)))
                },
                _ => None,
            }
        },
    }
}

/// `name` inside directory `dir`.
pub fn join(dir: &str, name: &str) -> (r: String)
    ensures
        r@ == join_spec(dir@, name@),
{
    let len = dir.unicode_len();
    if len == 0 {
        return String::from_str(name);
    }
    let mut r = String::from_str(dir);
    if dir.get_char(len - 1) != '/' {
        let sep = "/";
        proof {
            reveal_strlit("/");
        }
        r.append(sep);
    }
    r.append(name);
    r
}

/// `path` with the extension of its last component set to `ext`.
pub fn with_extension(path: &str, ext: &str) -> (r: String)
    ensures
        r@ == with_extension_spec(path@, ext@),
{
    let start = find_name_start(path);
    let len = path.unicode_len();
    let name = path.substring_char(start, len);
    let mut r = String::from_str(path.substring_char(0, start));
    match find_last_dot(name) {
        Some(k) if k > 0 => {
            proof {
                lemma_last_dot_bounds(name@, name@.len() as int);
            }
            r.append(name.substring_char(0, k));
        },
        _ => r.append(name),
    }
    let dot = ".";
    proof {
        reveal_strlit(".");
    }
    r.append(dot);
    r.append(ext);
    r
}

/// The stem of the last component of `p`.
pub(crate) fn last_component_stem(p: &str) -> (r: String)
    ensures
        r@ == stem_of(last_component(p@)),
{
    let start = find_name_start(p);
    let len = p.unicode_len();
    let name = p.substring_char(start, len);
    match find_last_dot(name) {
        Some(k) if k > 0 => {
            proof {
                lemma_last_dot_bounds(name@, name@.len() as int);
            }
            String::from_str(name.substring_char(0, k))
        },
        _ => String::from_str(name),
    }
}

proof fn lemma_name_start_zero(p: Seq<char>, n: int)
    requires
        0 <= n <= p.len(),
        forall|i: int| 0 <= i < n ==> p[i] != '/',
    ensures
        name_start_upto(p, n) == 0,
    decreases n,
{
    if n > 0 {
        lemma_name_start_zero(p, n - 1);
    }
}

proof fn lemma_last_dot_at(s: Seq<char>, k: int, m: int)
    requires
        0 <= m < k <= s.len(),
        s[m] == '.',
        forall|j: int| m < j < k ==> s[j] != '.',
    ensures
        last_dot_upto(s, k) == m,
    decreases k,
{
    if k - 1 > m {
        lemma_last_dot_at(s, k - 1, m);
    }
}

/// A path without '/' is its own last component.
pub proof fn lemma_no_directory(p: Seq<char>)
    requires
        forall|i: int| 0 <= i < p.len() ==> p[i] != '/',
    ensures
        last_component(p) == p,
{
    lemma_name_start_zero(p, p.len() as int);
    assert(p.subrange(0, p.len() as int) =~= p);
}

/// A name made of a stem, a '.' and an extension without '.' has that stem
/// and that extension.
pub proof fn lemma_stem_and_extension(stem: Seq<char>, ext: Seq<char>)
    requires
        stem.len() > 0,
        forall|i: int| 0 <= i < ext.len() ==> ext[i] != '.',
    ensures
        stem_of(stem + seq!['.'] + ext) == stem,
        extension_of(stem + seq!['.'] + ext) == Some(ext),
{
    let n = stem + seq!['.'] + ext;
    let m = stem.len() as int;
    assert(n[m] == '.');
    assert forall|j: int| m < j < n.len() implies n[j] != '.' by {
        assert(n[j] == ext[j - m - 1]);
    }
    lemma_last_dot_at(n, n.len() as int, m);
    assert(n.subrange(0, m) =~= stem);
    assert(n.subrange(m + 1, n.len() as int) =~= ext);
}

proof fn lemma_name_start_after(s: Seq<char>, start: int, k: int)
    requires
        0 <= start <= k <= s.len(),
        start == 0 || s[start - 1] == '/',
        forall|j: int| start <= j < k ==> s[j] != '/',
    ensures
        name_start_upto(s, k) == start,
    decreases k,
{
    if k > start {
        lemma_name_start_after(s, start, k - 1);
    }
}

/// A directory part (empty, or ending in '/') followed by a name without '/':
/// the name is the last component, and the directory part is what precedes it.
pub proof fn lemma_directory_and_name(dir: Seq<char>, name: Seq<char>)
    requires
        dir.len() == 0 || dir.last() == '/',
        forall|i: int| 0 <= i < name.len() ==> name[i] != '/',
    ensures
        name_start(dir + name) == dir.len(),
        last_component(dir + name) == name,
        (dir + name).subrange(0, name_start(dir + name)) == dir,
{
    let s = dir + name;
    assert forall|j: int| dir.len() <= j < s.len() implies s[j] != '/' by {
        assert(s[j] == name[j - dir.len()]);
    }
    if dir.len() > 0 {
        assert(s[dir.len() - 1] == dir.last());
    }
    lemma_name_start_after(s, dir.len() as int, s.len() as int);
    assert(s.subrange(dir.len() as int, s.len() as int) =~= name);
    assert(s.subrange(0, dir.len() as int) =~= dir);
}

/// The directory part of a path is empty or ends in '/', and its last
/// component holds no '/'.
pub proof fn lemma_path_parts(p: Seq<char>)
    ensures
        p.subrange(0, name_start(p)).len() == 0 || p.subrange(0, name_start(p)).last() == '/',
        forall|i: int| 0 <= i < last_component(p).len() ==> last_component(p)[i] != '/',
        p == p.subrange(0, name_start(p)) + last_component(p),
{
    lemma_name_start_bounds(p, p.len() as int);
    assert(p =~= p.subrange(0, name_start(p)) + last_component(p));
}

/// The stem of a file name holds no '/' where the name holds none, and is not
/// empty where the name is not.
pub proof fn lemma_stem_parts(n: Seq<char>)
    requires
        forall|i: int| 0 <= i < n.len() ==> n[i] != '/',
    ensures
        forall|i: int| 0 <= i < stem_of(n).len() ==> stem_of(n)[i] != '/',
        n.len() > 0 ==> stem_of(n).len() > 0,
{
    lemma_last_dot_bounds(n, n.len() as int);
}

} // verus!
