//! Which files of a directory listing a batch takes, and the order that track
//! numbers follow: the paths sorted by the code points of their characters,
//! which is also the order of their UTF-8 bytes.

use vstd::prelude::*;
use vstd::multiset::Multiset;
use vstd::seq_lib::group_to_multiset_ensures;

use crate::format::{audio_format, flac_ext, format_of, format_of_extension, mp3_ext, AudioFormat};
use crate::path::{lemma_directory_and_name, lemma_stem_and_extension};
use crate::path::string_views;

verus! {

broadcast use group_to_multiset_ensures;

/// `a` sorts before `b`, or equals it: compared character by character by
/// code point, a proper prefix first.
pub open spec fn text_le(a: Seq<char>, b: Seq<char>) -> bool
    decreases a.len(),
{
    if a.len() == 0 {
        true
    } else if b.len() == 0 {
        false
    } else if a[0] != b[0] {
        a[0] < b[0]
    } else {
        text_le(a.drop_first(), b.drop_first())
    }
}

/// Each path sorts before or with every later one.
pub open spec fn is_sorted(s: Seq<Seq<char>>) -> bool {
    forall|i: int, j: int| 0 <= i < j < s.len() ==> text_le(#[trigger] s[i], #[trigger] s[j])
}

proof fn lemma_text_le_reflexive(a: Seq<char>)
    ensures
        text_le(a, a),
    decreases a.len(),
{
    if a.len() > 0 {
        lemma_text_le_reflexive(a.drop_first());
    }
}

proof fn lemma_text_le_total(a: Seq<char>, b: Seq<char>)
    ensures
        text_le(a, b) || text_le(b, a),
    decreases a.len(),
{
    if a.len() > 0 && b.len() > 0 {
        if a[0] == b[0] {
            lemma_text_le_total(a.drop_first(), b.drop_first());
        }
    }
}

proof fn lemma_text_le_antisymmetric(a: Seq<char>, b: Seq<char>)
    requires
        text_le(a, b),
        text_le(b, a),
    ensures
        a == b,
    decreases a.len(),
{
    if a.len() > 0 {
        assert(b.len() > 0);
        if a[0] == b[0] {
            lemma_text_le_antisymmetric(a.drop_first(), b.drop_first());
            assert(a =~= seq![a[0]] + a.drop_first());
            assert(b =~= seq![b[0]] + b.drop_first());
        }
    } else {
        assert(b.len() == 0);
        assert(a =~= b);
    }
}

proof fn lemma_text_le_transitive(a: Seq<char>, b: Seq<char>, c: Seq<char>)
    requires
        text_le(a, b),
        text_le(b, c),
    ensures
        text_le(a, c),
    decreases a.len(),
{
    if a.len() > 0 {
        assert(b.len() > 0 && c.len() > 0);
        if a[0] == b[0] && b[0] == c[0] {
            lemma_text_le_transitive(a.drop_first(), b.drop_first(), c.drop_first());
        }
    }
}

/// Whether `a` sorts before `b` or equals it.
pub fn text_le_exec(a: &str, b: &str) -> (r: bool)
    ensures
        r == text_le(a@, b@),
{
    let alen = a.unicode_len();
    let blen = b.unicode_len();
    let mut i: usize = 0;
    assert(a@.skip(0) =~= a@);
    assert(b@.skip(0) =~= b@);
    while i < alen && i < blen
        invariant
            alen == a@.len(),
            blen == b@.len(),
            i <= alen,
            i <= blen,
            text_le(a@, b@) == text_le(a@.skip(i as int), b@.skip(i as int)),
        decreases alen - i,
    {
        let x = a.get_char(i);
        let y = b.get_char(i);
        if x != y {
            return x < y;
        }
        assert(a@.skip(i as int).drop_first() =~= a@.skip(i + 1));
        assert(b@.skip(i as int).drop_first() =~= b@.skip(i + 1));
        i = i + 1;
    }
    i == alen
}

/// Two sorted arrangements of the same paths are one and the same.
pub proof fn lemma_sorted_arrangement_unique(r1: Seq<Seq<char>>, r2: Seq<Seq<char>>)
    requires
        is_sorted(r1),
        is_sorted(r2),
        r1.to_multiset() == r2.to_multiset(),
    ensures
        r1 == r2,
    decreases r1.len(),
{
    assert(r1.to_multiset().len() == r1.len());
    assert(r2.to_multiset().len() == r2.len());
    if r1.len() == 0 {
        assert(r2.len() == 0);
        assert(r1 =~= r2);
    } else {
        let n = r1.len() - 1;
        assert(r2.len() == r1.len());
        let m1 = r1[n];
        let m2 = r2[n];
        assert(r1.contains(m1));
        assert(r2.to_multiset().count(m1) > 0);
        let k2 = choose|k: int| 0 <= k < r2.len() && r2[k] == m1;
        if k2 < n {
            assert(text_le(r2[k2], r2[n]));
        } else {
            lemma_text_le_reflexive(m1);
        }
        assert(r2.contains(m2));
        assert(r1.to_multiset().count(m2) > 0);
        let k1 = choose|k: int| 0 <= k < r1.len() && r1[k] == m2;
        if k1 < n {
            assert(text_le(r1[k1], r1[n]));
        } else {
            lemma_text_le_reflexive(m2);
        }
        lemma_text_le_antisymmetric(m1, m2);
        assert(r1.remove(n) =~= r1.drop_last());
        assert(r2.remove(n) =~= r2.drop_last());
        lemma_sorted_arrangement_unique(r1.drop_last(), r2.drop_last());
        assert(r1 =~= r2.drop_last().push(m2));
        assert(r2 =~= r2.drop_last().push(m2));
    }
}

/// The paths sorted by the code points of their characters.
pub fn sort_paths(paths: &Vec<String>) -> (r: Vec<String>)
    ensures
        is_sorted(string_views(r@)),
        string_views(r@).to_multiset() == string_views(paths@).to_multiset(),
{
    let mut out: Vec<String> = Vec::new();
    let n = paths.len();
    let mut i: usize = 0;
    assert(string_views(out@) =~= Seq::empty());
    assert(string_views(paths@).take(0) =~= Seq::empty());
    while i < n
        invariant
            n == paths@.len(),
            i <= n,
            is_sorted(string_views(out@)),
            string_views(out@).to_multiset() == string_views(paths@).take(i as int).to_multiset(),
        decreases n - i,
    {
        let x = String::from_str(paths[i].as_str());
        let ghost xv = x@;
        let ghost before = string_views(out@);
        let mut j: usize = 0;
        while j < out.len() && text_le_exec(out[j].as_str(), x.as_str())
            invariant
                j <= out@.len(),
                before == string_views(out@),
                x@ == xv,
                forall|k: int| 0 <= k < j ==> text_le(#[trigger] before[k], xv),
            decreases out@.len() - j,
        {
            j = j + 1;
        }
        proof {
            if j < before.len() {
                lemma_text_le_total(before[j as int], xv);
            }
        }
        out.insert(j, x);
        let ghost after = string_views(out@);
        assert(after =~= before.insert(j as int, xv));
        assert forall|p: int, q: int| 0 <= p < q < after.len() implies text_le(#[trigger] after[p], #[trigger] after[q]) by {
            if q < j {
                assert(after[p] == before[p] && after[q] == before[q]);
            } else if q == j {
                assert(after[p] == before[p]);
            } else if p < j {
                assert(after[q] == before[q - 1]);
                lemma_text_le_transitive(before[p], xv, before[j as int]);
                if q - 1 > j {
                    lemma_text_le_transitive(before[p], before[j as int], before[q - 1]);
                }
            } else if p == j {
                assert(after[q] == before[q - 1]);
                if q - 1 > j {
                    lemma_text_le_transitive(xv, before[j as int], before[q - 1]);
                }
            } else {
                assert(after[p] == before[p - 1] && after[q] == before[q - 1]);
            }
        }
        assert(after.remove(j as int) =~= before);
        assert(after[j as int] == xv);
        assert(after.to_multiset() =~= before.to_multiset().insert(xv));
        assert(string_views(paths@).take(i + 1) =~= string_views(paths@).take(i as int).push(xv));
        i = i + 1;
    }
    assert(string_views(paths@).take(n as int) =~= string_views(paths@));
    out
}

/// An entry of a directory listing: its path, and whether it is a regular file.
#[derive(Debug, PartialEq, Eq)]
pub struct DirEntry {
    pub path: String,
    pub is_file: bool,
}

pub type EntryView = (Seq<char>, bool);

pub open spec fn entry_views(es: Seq<DirEntry>) -> Seq<EntryView> {
    es.map_values(|e: DirEntry| (e.path@, e.is_file))
}

/// The files that an operation takes from a directory.
#[derive(Clone, Copy, Debug, PartialEq, Eq, Structural)]
pub enum Selection {
    /// FLAC and MP3 files, whose tags can be set.
    Taggable,
    /// FLAC files, which can be converted.
    Convertible,
}

/// The entry is a regular file of a format that the operation takes.
pub open spec fn is_selected(e: EntryView, sel: Selection) -> bool {
    &&& e.1
    &&& match sel {
        Selection::Taggable => format_of(e.0) != AudioFormat::Unsupported,
        Selection::Convertible => format_of(e.0) == AudioFormat::Flac,
    }
}

/// The paths of the selected entries, in the order of the listing.
pub open spec fn selected_paths(es: Seq<EntryView>, sel: Selection) -> Seq<Seq<char>>
    decreases es.len(),
{
    if es.len() == 0 {
        Seq::empty()
    } else if is_selected(es.last(), sel) {
        selected_paths(es.drop_last(), sel).push(es.last().0)
    } else {
        selected_paths(es.drop_last(), sel)
    }
}

/// `r` is the order in which a batch over listing `es` numbers its tracks:
/// the taggable files, sorted.
pub open spec fn is_track_order(r: Seq<Seq<char>>, es: Seq<EntryView>) -> bool {
    is_sorted(r) && r.to_multiset() == selected_paths(es, Selection::Taggable).to_multiset()
}

fn selects(e: &DirEntry, sel: Selection) -> (r: bool)
    ensures
        r == is_selected((e.path@, e.is_file), sel),
{
    if !e.is_file {
        return false;
    }
    match (sel, audio_format(e.path.as_str())) {
        (Selection::Taggable, AudioFormat::Flac) => true,
        (Selection::Taggable, AudioFormat::Mp3) => true,
        (Selection::Convertible, AudioFormat::Flac) => true,
        _ => false,
    }
}

/// The paths of the entries that are regular files of a format the operation
/// takes, in the order of the listing.
pub fn select_files(entries: &Vec<DirEntry>, sel: Selection) -> (r: Vec<String>)
    ensures
        string_views(r@) == selected_paths(entry_views(entries@), sel),
{
    let mut out: Vec<String> = Vec::new();
    let n = entries.len();
    let mut i: usize = 0;
    assert(string_views(out@) =~= Seq::empty());
    while i < n
        invariant
            n == entries@.len(),
            i <= n,
            string_views(out@) == selected_paths(entry_views(entries@).take(i as int), sel),
        decreases n - i,
    {
        let ghost es = entry_views(entries@).take(i + 1);
        assert(es.drop_last() =~= entry_views(entries@).take(i as int));
        assert(es.last() == (entries@[i as int].path@, entries@[i as int].is_file));
        if selects(&entries[i], sel) {
            let p = String::from_str(entries[i].path.as_str());
            let ghost before = string_views(out@);
            out.push(p);
            assert(string_views(out@) =~= before.push(p@));
        }
        i = i + 1;
    }
    assert(entry_views(entries@).take(n as int) =~= entry_views(entries@));
    out
}

/// The taggable files of a listing, in the order of their track numbers.
pub fn track_order(entries: &Vec<DirEntry>) -> (r: Vec<String>)
    ensures
        is_track_order(string_views(r@), entry_views(entries@)),
{
    let files = select_files(entries, Selection::Taggable);
    sort_paths(&files)
}

proof fn lemma_selected_count(es: Seq<EntryView>, sel: Selection, p: Seq<char>)
    ensures
        selected_paths(es, sel).to_multiset().count(p) == (if is_selected((p, true), sel) {
            es.to_multiset().count((p, true))
        } else {
            0
        }),
    decreases es.len(),
{
    if es.len() == 0 {
        assert(es.to_multiset() =~= Multiset::empty());
        assert(selected_paths(es, sel).to_multiset() =~= Multiset::empty());
    } else {
        let d = es.drop_last();
        let e = es.last();
        lemma_selected_count(d, sel, p);
        assert(es =~= d.push(e));
        assert(es.to_multiset() == d.to_multiset().insert(e));
        if is_selected(e, sel) {
            assert(selected_paths(es, sel).to_multiset() == selected_paths(d, sel).to_multiset().insert(e.0));
        }
    }
}

/// The order of the tracks follows the sorted paths, not the order in which
/// the directory listed them: two listings of the same entries, in any order,
/// number the same files the same way.
pub proof fn lemma_track_order_ignores_listing_order(
    a: Seq<EntryView>,
    b: Seq<EntryView>,
    ra: Seq<Seq<char>>,
    rb: Seq<Seq<char>>,
)
    requires
        a.to_multiset() == b.to_multiset(),
        is_track_order(ra, a),
        is_track_order(rb, b),
    ensures
        ra == rb,
{
    let sa = selected_paths(a, Selection::Taggable);
    let sb = selected_paths(b, Selection::Taggable);
    assert forall|p: Seq<char>| sa.to_multiset().count(p) == sb.to_multiset().count(p) by {
        lemma_selected_count(a, Selection::Taggable, p);
        lemma_selected_count(b, Selection::Taggable, p);
    }
    assert(sa.to_multiset() =~= sb.to_multiset());
    lemma_sorted_arrangement_unique(ra, rb);
}

proof fn lemma_selected_len(es: Seq<EntryView>, sel: Selection)
    ensures
        selected_paths(es, sel).len() <= es.len(),
    decreases es.len(),
{
    if es.len() > 0 {
        lemma_selected_len(es.drop_last(), sel);
    }
}

/// A track order holds no more paths than the listing has entries.
pub proof fn lemma_track_order_len(r: Seq<Seq<char>>, es: Seq<EntryView>)
    requires
        is_track_order(r, es),
    ensures
        r.len() <= es.len(),
{
    lemma_selected_len(es, Selection::Taggable);
    assert(r.to_multiset().len() == r.len());
    assert(selected_paths(es, Selection::Taggable).to_multiset().len() == selected_paths(es, Selection::Taggable).len());
}

proof fn lemma_plain_name_format(dir: Seq<char>, stem: Seq<char>, ext: Seq<char>)
    requires
        dir.len() == 0 || dir.last() == '/',
        stem.len() > 0,
        forall|i: int| 0 <= i < stem.len() ==> stem[i] != '/' && stem[i] != '.',
        forall|i: int| 0 <= i < ext.len() ==> ext[i] != '/' && ext[i] != '.',
    ensures
        format_of(dir + (stem + seq!['.'] + ext)) == format_of_extension(Some(ext)),
{
    let n = stem + seq!['.'] + ext;
    assert forall|i: int| 0 <= i < n.len() implies n[i] != '/' by {
        if i < stem.len() {
            assert(n[i] == stem[i]);
        } else if i > stem.len() {
            assert(n[i] == ext[i - stem.len() - 1]);
        }
    }
    lemma_directory_and_name(dir, n);
    lemma_stem_and_extension(stem, ext);
    assert(n != seq!['.', '.']) by {
        if n == seq!['.', '.'] {
            assert(n[0] == stem[0]);
        }
    }
}

proof fn lemma_text_le_common_prefix(d: Seq<char>, a: Seq<char>, b: Seq<char>)
    ensures
        text_le(d + a, d + b) == text_le(a, b),
    decreases d.len(),
{
    if d.len() > 0 {
        assert((d + a)[0] == (d + b)[0]);
        assert((d + a).drop_first() =~= d.drop_first() + a);
        assert((d + b).drop_first() =~= d.drop_first() + b);
        lemma_text_le_common_prefix(d.drop_first(), a, b);
    } else {
        assert(d + a =~= a);
        assert(d + b =~= b);
    }
}

/// A listing of the regular files `b.mp3`, `a.flac` and `c.mp3` of one
/// directory `dir`, in whatever order the directory gives them, numbers them
/// `a.flac`, `b.mp3`, `c.mp3`.
pub proof fn lemma_three_files_numbered_by_name(dir: Seq<char>, es: Seq<EntryView>, r: Seq<Seq<char>>)
    requires
        dir.len() == 0 || dir.last() == '/',
        es.to_multiset() == seq![
            (dir + seq!['b', '.', 'm', 'p', '3'], true),
            (dir + seq!['a', '.', 'f', 'l', 'a', 'c'], true),
            (dir + seq!['c', '.', 'm', 'p', '3'], true),
        ].to_multiset(),
        is_track_order(r, es),
    ensures
        r == seq![
            dir + seq!['a', '.', 'f', 'l', 'a', 'c'],
            dir + seq!['b', '.', 'm', 'p', '3'],
            dir + seq!['c', '.', 'm', 'p', '3'],
        ],
{
    let na = seq!['a', '.', 'f', 'l', 'a', 'c'];
    let nb = seq!['b', '.', 'm', 'p', '3'];
    let nc = seq!['c', '.', 'm', 'p', '3'];
    let a = dir + na;
    let b = dir + nb;
    let c = dir + nc;
    let listed = seq![(b, true), (a, true), (c, true)];
    assert(na =~= seq!['a'] + seq!['.'] + flac_ext());
    assert(nb =~= seq!['b'] + seq!['.'] + mp3_ext());
    assert(nc =~= seq!['c'] + seq!['.'] + mp3_ext());
    lemma_plain_name_format(dir, seq!['a'], flac_ext());
    lemma_plain_name_format(dir, seq!['b'], mp3_ext());
    lemma_plain_name_format(dir, seq!['c'], mp3_ext());
    assert(format_of(a) == AudioFormat::Flac);
    assert(format_of(b) == AudioFormat::Mp3);
    assert(format_of(c) == AudioFormat::Mp3);
    let l1 = seq![(b, true)];
    let l2 = seq![(b, true), (a, true)];
    assert(is_selected((a, true), Selection::Taggable));
    assert(is_selected((b, true), Selection::Taggable));
    assert(is_selected((c, true), Selection::Taggable));
    assert(l1.drop_last() =~= Seq::<EntryView>::empty());
    assert(l2.drop_last() =~= l1);
    assert(l1.last() == (b, true) && l2.last() == (a, true) && listed.last() == (c, true));
    assert(selected_paths(Seq::<EntryView>::empty(), Selection::Taggable) == Seq::<Seq<char>>::empty());
    assert(selected_paths(l1, Selection::Taggable) == Seq::<Seq<char>>::empty().push(b));
    assert(selected_paths(l2, Selection::Taggable) == Seq::<Seq<char>>::empty().push(b).push(a));
    assert(listed.drop_last() =~= l2);
    let sel = selected_paths(listed, Selection::Taggable);
    assert(sel == Seq::<Seq<char>>::empty().push(b).push(a).push(c));
    let sorted = seq![a, b, c];
    assert(text_le(na, nb));
    assert(text_le(nb, nc));
    assert(text_le(na, nc));
    lemma_text_le_common_prefix(dir, na, nb);
    lemma_text_le_common_prefix(dir, nb, nc);
    lemma_text_le_common_prefix(dir, na, nc);
    assert(is_sorted(sorted));
    assert(sorted =~= Seq::<Seq<char>>::empty().push(a).push(b).push(c));
    assert(sorted.to_multiset() =~= sel.to_multiset());
    lemma_track_order_ignores_listing_order(es, listed, r, sorted);
}

} // verus!
