//! Name validation and download-path derivation.
//!
//! A podcast's name doubles as its directory name and as its partition
//! key in the idempotency log, so it must be safe for both; an episode
//! title becomes the filename stem. The download target for an entry is
//! `root/name/title.ext`, where `ext` is what follows the last `.` of
//! the last `/`-segment of the enclosure URI, or nothing if that
//! segment has no dot.

use vstd::prelude::*;
use vstd::string::*;

verus! {

/// A string usable as a single path component: nonempty, with no
/// separator and no NUL.
pub open spec fn valid_component(s: Seq<char>) -> bool {
    &&& s.len() > 0
    &&& forall|i: int| 0 <= i < s.len() ==> s[i] != '/' && s[i] != '\u{0}'
}

/// A string usable as a podcast name: a valid path component that is
/// also safe to quote as a partition key in the log's store.
pub open spec fn safe_name(s: Seq<char>) -> bool {
    &&& valid_component(s)
    &&& forall|i: int| 0 <= i < s.len() ==> s[i] != '`'
}

/// True iff `c` occurs in `s`.
pub open spec fn contains_char(s: Seq<char>, c: char) -> bool {
    exists|i: int| 0 <= i < s.len() && s[i] == c
}

/// `i` is the last occurrence of `c` in `s`.
pub open spec fn is_last_index_of(s: Seq<char>, c: char, i: int) -> bool {
    &&& 0 <= i < s.len()
    &&& s[i] == c
    &&& forall|j: int| i < j < s.len() ==> s[j] != c
}

/// The last occurrence of `c` in `s`; meaningful when `contains_char(s, c)`.
pub open spec fn last_index_of(s: Seq<char>, c: char) -> int {
    choose|i: int| is_last_index_of(s, c, i)
}

/// A last occurrence is unique, and `last_index_of` agrees with it.
pub proof fn lemma_last_index_agrees(s: Seq<char>, c: char, i: int)
    requires
        is_last_index_of(s, c, i),
    ensures
        contains_char(s, c),
        last_index_of(s, c) == i,
{
    assert(contains_char(s, c));
    assert(exists|k: int| is_last_index_of(s, c, k));
    let k = last_index_of(s, c);
    assert(is_last_index_of(s, c, k));
    if k < i {
        assert(s[i] == c);
        assert(false);
    }
    if i < k {
        assert(s[k] == c);
        assert(false);
    }
}

/// The part of the URI after its last `/`, or the whole URI if it has
/// no `/`.
pub open spec fn uri_file_segment(uri: Seq<char>) -> Seq<char> {
    if contains_char(uri, '/') {
        uri.subrange(last_index_of(uri, '/') + 1, uri.len() as int)
    } else {
        uri
    }
}

/// The extension the URI yields: what follows the last `.` of the
/// URI's file segment, or `None` if that segment has no dot.
pub open spec fn ext_of_uri(uri: Seq<char>) -> Option<Seq<char>> {
    let seg = uri_file_segment(uri);
    if contains_char(seg, '.') {
        Some(seg.subrange(last_index_of(seg, '.') + 1, seg.len() as int))
    } else {
        None
    }
}

/// The filename for an episode: the title, with the URI's extension
/// appended after a dot when there is one.
pub open spec fn file_name_spec(title: Seq<char>, uri: Seq<char>) -> Seq<char> {
    match ext_of_uri(uri) {
        Some(ext) => title + seq!['.'] + ext,
        None => title,
    }
}

/// The full download target: `root/name/filename`.
pub open spec fn target_path_spec(
    root: Seq<char>,
    name: Seq<char>,
    title: Seq<char>,
    uri: Seq<char>,
) -> Seq<char> {
    root + seq!['/'] + name + seq!['/'] + file_name_spec(title, uri)
}

/// The index of the last occurrence of `c` in `s`, scanning from the
/// end, or `None` if `c` does not occur.
pub fn rfind_char(s: &str, c: char) -> (r: Option<usize>)
    ensures
        match r {
            Some(i) => is_last_index_of(s@, c, i as int),
            None => !contains_char(s@, c),
        },
{
    let n: usize = s.unicode_len();
    let mut i: usize = n;
    while i > 0
        invariant
            i <= n,
            n == s@.len(),
            forall|j: int| i <= j < n ==> s@[j] != c,
        decreases i,
    {
        i = i - 1;
        if s.get_char(i) == c {
            return Some(i);
        }
    }
    None
}

/// Decides `valid_component` for a string.
pub fn is_valid_component(s: &str) -> (r: bool)
    ensures
        r == valid_component(s@),
{
    let n: usize = s.unicode_len();
    if n == 0 {
        return false;
    }
    let mut i: usize = 0;
    while i < n
        invariant
            i <= n,
            n == s@.len(),
            forall|j: int| 0 <= j < i ==> s@[j] != '/' && s@[j] != '\u{0}',
        decreases n - i,
    {
        let ch = s.get_char(i);
        if ch == '/' || ch == '\u{0}' {
            return false;
        }
        i = i + 1;
    }
    true
}

/// Decides `safe_name` for a string.
pub fn is_safe_name(s: &str) -> (r: bool)
    ensures
        r == safe_name(s@),
{
    if !is_valid_component(s) {
        return false;
    }
    let n: usize = s.unicode_len();
    let mut i: usize = 0;
    while i < n
        invariant
            i <= n,
            n == s@.len(),
            forall|j: int| 0 <= j < i ==> s@[j] != '`',
        decreases n - i,
    {
        if s.get_char(i) == '`' {
            return false;
        }
        i = i + 1;
    }
    true
}

/// Builds the filename for an episode: title plus the URI's extension,
/// if the URI's file segment has one.
pub fn file_name_for(title: &str, uri: &str) -> (r: String)
    ensures
        r@ == file_name_spec(title@, uri@),
{
    let seg: &str = match rfind_char(uri, '/') {
        Some(i) => {
            let n: usize = uri.unicode_len();
            proof {
                lemma_last_index_agrees(uri@, '/', i as int);
            }
            uri.substring_char(i + 1, n)
        },
        None => uri,
    };
    assert(seg@ == uri_file_segment(uri@));
    match rfind_char(seg, '.') {
        Some(j) => {
            let m: usize = seg.unicode_len();
            proof {
                lemma_last_index_agrees(seg@, '.', j as int);
                reveal_strlit(".");
            }
            let ext = seg.substring_char(j + 1, m);
            let mut out = String::from_str(title);
            out.append(".");
            out.append(ext);
            assert(out@ =~= title@ + seq!['.'] + ext@);
            out
        },
        None => String::from_str(title),
    }
}

/// Builds the download target path `root/name/title[.ext]` for an
/// entry of podcast `name` with the given title and enclosure URI.
pub fn derive_target_path(root: &str, name: &str, title: &str, uri: &str) -> (r: String)
    ensures
        r@ == target_path_spec(root@, name@, title@, uri@),
{
    proof {
        reveal_strlit("/");
    }
    let mut out = String::from_str(root);
    out.append("/");
    out.append(name);
    out.append("/");
    let fname = file_name_for(title, uri);
    out.append(fname.as_str());
    assert(out@ =~= target_path_spec(root@, name@, title@, uri@));
    out
}

} // verus!
