//! A file path is a plain string of `/`-separated segments, relative
//! to the served root (for example `html/sub/page.html`).  This module
//! gives the verified path operations the server needs: final segment,
//! parent directory, extension, stem, and the path relative to the
//! deepest ancestor directory with a given name.

use vstd::prelude::*;
use crate::text::last_index_of_char;
use crate::text::lemma_last_index_of_char;
use crate::text::rfind_char;
use crate::text::substring_copy;

verus! {

/// Final segment of `s`: everything after the last `/`, or all of `s`
/// when it has none.
pub open spec fn file_name_of_spec(s: Seq<char>) -> Seq<char> {
    s.subrange(last_index_of_char(s, '/') + 1, s.len() as int)
}

/// Everything before the last `/`, or the empty string when `s` has
/// none.
pub open spec fn parent_of_spec(s: Seq<char>) -> Seq<char> {
    if last_index_of_char(s, '/') < 0 {
        Seq::empty()
    } else {
        s.subrange(0, last_index_of_char(s, '/'))
    }
}

/// What follows the last `.` of the final segment, or `None` when that
/// segment has no `.` past its first character.
pub open spec fn extension_of_spec(s: Seq<char>) -> Option<Seq<char>> {
    let n = file_name_of_spec(s);
    let d = last_index_of_char(n, '.');
    if d <= 0 {
        None
    } else {
        Some(n.subrange(d + 1, n.len() as int))
    }
}

/// The final segment without its extension; the whole segment when it
/// has none.
pub open spec fn stem_of_spec(s: Seq<char>) -> Seq<char> {
    let n = file_name_of_spec(s);
    let d = last_index_of_char(n, '.');
    if d <= 0 {
        n
    } else {
        n.subrange(0, d)
    }
}

/// `base` stands in `s` at position `p` as one whole `/`-separated
/// segment.
pub open spec fn seg_match_at(s: Seq<char>, base: Seq<char>, p: int) -> bool {
    &&& 0 <= p
    &&& p + base.len() <= s.len()
    &&& s.subrange(p, p + base.len()) == base
    &&& (p == 0 || s[p - 1] == '/')
    &&& (p + base.len() == s.len() || s[p + base.len()] == '/')
}

/// Largest position `<= p` where `base` stands as a whole segment, or
/// `-1` when there is none.
pub open spec fn last_seg_match_from(s: Seq<char>, base: Seq<char>, p: int) -> int
    decreases p + 1,
{
    if p < 0 {
        -1
    } else if seg_match_at(s, base, p) {
        p
    } else {
        last_seg_match_from(s, base, p - 1)
    }
}

pub open spec fn last_seg_match(s: Seq<char>, base: Seq<char>) -> int {
    last_seg_match_from(s, base, s.len() - base.len())
}

/// `s` relative to its deepest ancestor directory named `base`:
/// everything after the last whole-segment occurrence of `base`, or
/// `None` when no segment of `s` equals `base`.
pub open spec fn relative_to_spec(s: Seq<char>, base: Seq<char>) -> Option<Seq<char>> {
    let p = last_seg_match(s, base);
    if p < 0 {
        None
    } else if p + base.len() == s.len() {
        Some(Seq::<char>::empty())
    } else {
        Some(s.subrange(p + base.len() + 1, s.len() as int))
    }
}

pub proof fn lemma_last_seg_match_from(s: Seq<char>, base: Seq<char>, p: int)
    ensures
        last_seg_match_from(s, base, p) == -1 || (0 <= last_seg_match_from(s, base, p) <= p),
        last_seg_match_from(s, base, p) == -1 ==> forall|q: int|
            0 <= q <= p ==> !seg_match_at(s, base, q),
        last_seg_match_from(s, base, p) >= 0 ==> seg_match_at(s, base, last_seg_match_from(s, base, p))
            && forall|q: int| last_seg_match_from(s, base, p) < q <= p ==> !seg_match_at(s, base, q),
    decreases p + 1,
{
    if p < 0 {
    } else if seg_match_at(s, base, p) {
    } else {
        lemma_last_seg_match_from(s, base, p - 1);
    }
}

/// Final segment of `path`.
pub fn file_name_of(path: &String) -> (r: String)
    ensures
        r@ == file_name_of_spec(path@),
{
    proof {
        lemma_last_index_of_char(path@, '/');
    }
    let n = path.as_str().unicode_len();
    match rfind_char(path.as_str(), '/') {
        Some(i) => substring_copy(path.as_str(), i + 1, n),
        None => {
            let r = path.clone();
            proof {
                assert(r@ =~= file_name_of_spec(path@));
            }
            r
        },
    }
}

/// Parent directory of `path`, the empty string at the top.
pub fn parent_of(path: &String) -> (r: String)
    ensures
        r@ == parent_of_spec(path@),
{
    proof {
        lemma_last_index_of_char(path@, '/');
    }
    match rfind_char(path.as_str(), '/') {
        Some(i) => substring_copy(path.as_str(), 0, i),
        None => String::new(),
    }
}

/// Extension of the final segment of `path`, when it has one.
pub fn extension_of(path: &String) -> (r: Option<String>)
    ensures
        match r {
            Some(e) => extension_of_spec(path@) == Some(e@),
            None => extension_of_spec(path@) is None,
        },
{
    let name = file_name_of(path);
    proof {
        lemma_last_index_of_char(name@, '.');
    }
    let nlen = name.as_str().unicode_len();
    match rfind_char(name.as_str(), '.') {
        Some(d) => {
            if d == 0 {
                None
            } else {
                Some(substring_copy(name.as_str(), d + 1, nlen))
            }
        },
        None => None,
    }
}

/// Stem of the final segment of `path`.
pub fn stem_of(path: &String) -> (r: String)
    ensures
        r@ == stem_of_spec(path@),
{
    let name = file_name_of(path);
    proof {
        lemma_last_index_of_char(name@, '.');
    }
    match rfind_char(name.as_str(), '.') {
        Some(d) => {
            if d == 0 {
                name
            } else {
                substring_copy(name.as_str(), 0, d)
            }
        },
        None => name,
    }
}

/// `base` stands as a whole segment of `s` at `p`.
fn is_seg_match(s: &str, base: &str, p: usize) -> (r: bool)
    requires
        p + base@.len() <= s@.len(),
    ensures
        r == seg_match_at(s@, base@, p as int),
{
    let slen = s.unicode_len();
    let blen = base.unicode_len();
    if p > 0 && s.get_char(p - 1) != '/' {
        return false;
    }
    if p + blen < slen && s.get_char(p + blen) != '/' {
        return false;
    }
    let mut k: usize = 0;
    while k < blen
        invariant
            slen == s@.len(),
            blen == base@.len(),
            p + blen <= slen,
            k <= blen,
            forall|t: int| 0 <= t < k ==> s@[p + t] == base@[t],
        decreases blen - k,
    {
        if s.get_char(p + k) != base.get_char(k) {
            proof {
                assert(s@.subrange(p as int, p + base@.len())[k as int] == s@[p + k]);
            }
            return false;
        }
        k = k + 1;
    }
    proof {
        assert(s@.subrange(p as int, p + base@.len()) =~= base@);
    }
    true
}

/// Largest whole-segment position of `base` in `s`, as
/// `last_seg_match` gives it.
fn last_seg_position(s: &str, base: &str) -> (r: Option<usize>)
    ensures
        match r {
            Some(p) => p as int == last_seg_match(s@, base@),
            None => last_seg_match(s@, base@) == -1,
        },
{
    let slen = s.unicode_len();
    let blen = base.unicode_len();
    proof {
        lemma_last_seg_match_from(s@, base@, s@.len() - base@.len());
    }
    if blen > slen {
        proof {
            assert(last_seg_match(s@, base@) == -1);
        }
        return None;
    }
    let ghost top = s@.len() - base@.len();
    let mut p: usize = slen - blen;
    while p > 0
        invariant
            slen == s@.len(),
            blen == base@.len(),
            blen <= slen,
            p <= top,
            top == s@.len() - base@.len(),
            forall|q: int| p < q <= top ==> !seg_match_at(s@, base@, q),
            last_seg_match(s@, base@) == -1 || (0 <= last_seg_match(s@, base@) <= top),
            last_seg_match(s@, base@) == -1 ==> forall|q: int|
                0 <= q <= top ==> !seg_match_at(s@, base@, q),
            last_seg_match(s@, base@) >= 0 ==> seg_match_at(s@, base@, last_seg_match(s@, base@))
                && forall|q: int|
                    last_seg_match(s@, base@) < q <= top ==> !seg_match_at(s@, base@, q),
        decreases p,
    {
        if is_seg_match(s, base, p) {
            proof {
                assert(last_seg_match(s@, base@) == p as int);
            }
            return Some(p);
        }
        p = p - 1;
    }
    if is_seg_match(s, base, 0) {
        proof {
            assert(last_seg_match(s@, base@) == 0);
        }
        return Some(0);
    }
    proof {
        assert(last_seg_match(s@, base@) == -1);
    }
    None
}

/// `path` relative to its deepest ancestor directory named
/// `base_folder`, or `None` when no directory on `path` has that name.
pub fn get_relative_directory(path: &String, base_folder: &str) -> (r: Option<String>)
    ensures
        match r {
            Some(t) => relative_to_spec(path@, base_folder@) == Some(t@),
            None => relative_to_spec(path@, base_folder@) is None,
        },
{
    let s = path.as_str();
    let slen = s.unicode_len();
    let blen = base_folder.unicode_len();
    proof {
        lemma_last_seg_match_from(path@, base_folder@, path@.len() - base_folder@.len());
    }
    match last_seg_position(s, base_folder) {
        Some(p) => {
            if p + blen == slen {
                let r = String::new();
                proof {
                    assert(relative_to_spec(path@, base_folder@) == Some(r@));
                }
                Some(r)
            } else {
                Some(substring_copy(s, p + blen + 1, slen))
            }
        },
        None => None,
    }
}

} // verus!
