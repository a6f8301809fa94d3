//! Verified text utilities: character search, substring search,
//! prefix/suffix tests, and decimal rendering of lengths.  All
//! contracts are stated over the `Seq<char>` views of `str` and
//! `String`.

use vstd::prelude::*;

verus! {

/// The pattern `pat` occurs in `s` at position `i`.
pub open spec fn occurs_at(s: Seq<char>, pat: Seq<char>, i: int) -> bool {
    0 <= i && i + pat.len() <= s.len() && s.subrange(i, i + pat.len()) == pat
}

/// `s` has `sub` somewhere as a contiguous run.
pub open spec fn contains_seq(s: Seq<char>, sub: Seq<char>) -> bool {
    exists|i: int| occurs_at(s, sub, i)
}

/// Position of the first occurrence of `pat` in `s` at or after `i`,
/// or `-1` when there is none.
pub open spec fn first_occurrence_from(s: Seq<char>, pat: Seq<char>, i: int) -> int
    decreases s.len() - i,
{
    if pat.len() == 0 {
        0
    } else if i + pat.len() > s.len() {
        -1
    } else if occurs_at(s, pat, i) {
        i
    } else {
        first_occurrence_from(s, pat, i + 1)
    }
}

/// Position of the first occurrence of `pat` in `s`, or `-1`.
pub open spec fn first_occurrence(s: Seq<char>, pat: Seq<char>) -> int {
    first_occurrence_from(s, pat, 0)
}

pub proof fn lemma_first_occurrence_from(s: Seq<char>, pat: Seq<char>, i: int)
    requires
        pat.len() > 0,
    ensures
        first_occurrence_from(s, pat, i) >= -1,
        first_occurrence_from(s, pat, i) == -1 ==> forall|j: int|
            i <= j ==> !occurs_at(s, pat, j),
        first_occurrence_from(s, pat, i) >= 0 ==> i <= first_occurrence_from(s, pat, i)
            && occurs_at(s, pat, first_occurrence_from(s, pat, i))
            && forall|j: int| i <= j < first_occurrence_from(s, pat, i) ==> !occurs_at(s, pat, j),
    decreases s.len() - i,
{
    if i + pat.len() > s.len() {
        assert(forall|j: int| i <= j ==> !occurs_at(s, pat, j));
    } else if occurs_at(s, pat, i) {
    } else {
        lemma_first_occurrence_from(s, pat, i + 1);
    }
}

/// Position of the last `c` in `s`, or `-1` when `c` does not occur.
pub open spec fn last_index_of_char(s: Seq<char>, c: char) -> int
    decreases s.len(),
{
    if s.len() == 0 {
        -1
    } else if s.last() == c {
        s.len() - 1
    } else {
        last_index_of_char(s.drop_last(), c)
    }
}

pub proof fn lemma_last_index_of_char(s: Seq<char>, c: char)
    ensures
        -1 <= last_index_of_char(s, c) < s.len(),
        last_index_of_char(s, c) == -1 ==> forall|j: int| 0 <= j < s.len() ==> s[j] != c,
        last_index_of_char(s, c) >= 0 ==> s[last_index_of_char(s, c)] == c
            && forall|j: int| last_index_of_char(s, c) < j < s.len() ==> s[j] != c,
    decreases s.len(),
{
    if s.len() == 0 {
    } else if s.last() == c {
    } else {
        lemma_last_index_of_char(s.drop_last(), c);
        assert(forall|j: int| 0 <= j < s.len() - 1 ==> s.drop_last()[j] == s[j]);
    }
}

pub proof fn lemma_contains_in_left(a: Seq<char>, b: Seq<char>, sub: Seq<char>)
    requires
        contains_seq(a, sub),
    ensures
        contains_seq(a + b, sub),
{
    let i = choose|i: int| occurs_at(a, sub, i);
    assert((a + b).subrange(i, i + sub.len()) =~= sub);
    assert(occurs_at(a + b, sub, i));
}

pub proof fn lemma_contains_in_right(a: Seq<char>, b: Seq<char>, sub: Seq<char>)
    requires
        contains_seq(b, sub),
    ensures
        contains_seq(a + b, sub),
{
    let i = choose|i: int| occurs_at(b, sub, i);
    assert((a + b).subrange(a.len() + i, a.len() + i + sub.len()) =~= sub);
    assert(occurs_at(a + b, sub, a.len() + i));
}

pub proof fn lemma_contains_itself(s: Seq<char>)
    ensures
        contains_seq(s, s),
{
    assert(s.subrange(0, s.len() as int) =~= s);
    assert(occurs_at(s, s, 0));
}

/// Number of bytes of the UTF-8 encoding of `s`: the value that
/// `str::len` returns and that `Content-Length` carries.
pub open spec fn byte_len(s: Seq<char>) -> nat {
    vstd::utf8::encode_utf8(s).len()
}

pub open spec fn decimal_digit(d: nat) -> char {
    if d == 0 {
        '0'
    } else if d == 1 {
        '1'
    } else if d == 2 {
        '2'
    } else if d == 3 {
        '3'
    } else if d == 4 {
        '4'
    } else if d == 5 {
        '5'
    } else if d == 6 {
        '6'
    } else if d == 7 {
        '7'
    } else if d == 8 {
        '8'
    } else {
        '9'
    }
}

/// Decimal rendering of `n`, most significant digit first, no sign,
/// no leading zero except for `n == 0` itself.
pub open spec fn dec_str(n: nat) -> Seq<char>
    decreases n,
{
    if n < 10 {
        seq![decimal_digit(n)]
    } else {
        dec_str(n / 10).push(decimal_digit(n % 10))
    }
}

/// True of the result of both `str_equal` arguments having the same view.
pub fn str_equal(a: &str, b: &str) -> (r: bool)
    ensures
        r == (a@ == b@),
{
    let alen = a.unicode_len();
    let blen = b.unicode_len();
    if alen != blen {
        return false;
    }
    let mut i: usize = 0;
    while i < alen
        invariant
            alen == a@.len(),
            blen == b@.len(),
            alen == blen,
            i <= alen,
            forall|j: int| 0 <= j < i ==> a@[j] == b@[j],
        decreases alen - i,
    {
        if a.get_char(i) != b.get_char(i) {
            return false;
        }
        i = i + 1;
    }
    proof {
        assert(a@ =~= b@);
    }
    true
}

pub fn starts_with_str(s: &str, pre: &str) -> (r: bool)
    ensures
        r == pre@.is_prefix_of(s@),
{
    let plen = pre.unicode_len();
    let slen = s.unicode_len();
    if plen > slen {
        return false;
    }
    let mut i: usize = 0;
    while i < plen
        invariant
            plen == pre@.len(),
            slen == s@.len(),
            plen <= slen,
            i <= plen,
            forall|j: int| 0 <= j < i ==> pre@[j] == s@[j],
        decreases plen - i,
    {
        if pre.get_char(i) != s.get_char(i) {
            proof {
                assert(!(pre@ =~= s@.subrange(0, pre@.len() as int)));
            }
            return false;
        }
        i = i + 1;
    }
    proof {
        assert(pre@ =~= s@.subrange(0, pre@.len() as int));
    }
    true
}

pub fn ends_with_str(s: &str, suf: &str) -> (r: bool)
    ensures
        r == suf@.is_suffix_of(s@),
{
    let flen = suf.unicode_len();
    let slen = s.unicode_len();
    if flen > slen {
        return false;
    }
    let off = slen - flen;
    let mut i: usize = 0;
    while i < flen
        invariant
            flen == suf@.len(),
            slen == s@.len(),
            flen <= slen,
            off == slen - flen,
            i <= flen,
            forall|j: int| 0 <= j < i ==> suf@[j] == s@[off + j],
        decreases flen - i,
    {
        if suf.get_char(i) != s.get_char(off + i) {
            proof {
                assert(!(suf@ =~= s@.subrange(s@.len() - suf@.len(), s@.len() as int)));
            }
            return false;
        }
        i = i + 1;
    }
    proof {
        assert(suf@ =~= s@.subrange(s@.len() - suf@.len(), s@.len() as int));
    }
    true
}

pub fn contains_char(s: &str, c: char) -> (r: bool)
    ensures
        r == s@.contains(c),
{
    let slen = s.unicode_len();
    let mut i: usize = 0;
    while i < slen
        invariant
            slen == s@.len(),
            i <= slen,
            forall|j: int| 0 <= j < i ==> s@[j] != c,
        decreases slen - i,
    {
        if s.get_char(i) == c {
            return true;
        }
        i = i + 1;
    }
    false
}

/// Position of the last `c` in `s`, as `last_index_of_char` gives it.
pub fn rfind_char(s: &str, c: char) -> (r: Option<usize>)
    ensures
        match r {
            Some(i) => i as int == last_index_of_char(s@, c),
            None => last_index_of_char(s@, c) == -1,
        },
{
    proof {
        lemma_last_index_of_char(s@, c);
    }
    let slen = s.unicode_len();
    let mut i: usize = slen;
    while i > 0
        invariant
            slen == s@.len(),
            i <= slen,
            forall|j: int| i <= j < s@.len() ==> s@[j] != c,
            -1 <= last_index_of_char(s@, c) < s@.len(),
            last_index_of_char(s@, c) == -1 ==> forall|j: int| 0 <= j < s@.len() ==> s@[j] != c,
            last_index_of_char(s@, c) >= 0 ==> s@[last_index_of_char(s@, c)] == c
                && forall|j: int| last_index_of_char(s@, c) < j < s@.len() ==> s@[j] != c,
        decreases i,
    {
        i = i - 1;
        if s.get_char(i) == c {
            return Some(i);
        }
    }
    None
}

/// First occurrence of `pat` in `s`, as `first_occurrence` gives it.
pub fn find_str(s: &str, pat: &str) -> (r: Option<usize>)
    ensures
        match r {
            Some(i) => i as int == first_occurrence(s@, pat@),
            None => first_occurrence(s@, pat@) == -1,
        },
{
    let slen = s.unicode_len();
    let plen = pat.unicode_len();
    if plen == 0 {
        return Some(0);
    }
    proof {
        lemma_first_occurrence_from(s@, pat@, 0);
    }
    if plen > slen {
        return None;
    }
    let mut i: usize = 0;
    while i <= slen - plen
        invariant
            slen == s@.len(),
            plen == pat@.len(),
            plen <= slen,
            i <= slen - plen + 1,
            forall|j: int| 0 <= j < i ==> !occurs_at(s@, pat@, j),
            first_occurrence(s@, pat@) >= -1,
            first_occurrence(s@, pat@) == -1 ==> forall|j: int| 0 <= j ==> !occurs_at(
                s@,
                pat@,
                j,
            ),
            first_occurrence(s@, pat@) >= 0 ==> occurs_at(s@, pat@, first_occurrence(s@, pat@))
                && forall|j: int| 0 <= j < first_occurrence(s@, pat@) ==> !occurs_at(s@, pat@, j),
        decreases slen - plen + 1 - i,
    {
        let mut k: usize = 0;
        let mut all_match = true;
        while k < plen
            invariant
                slen == s@.len(),
                plen == pat@.len(),
                plen <= slen,
                i <= slen - plen,
                k <= plen,
                all_match ==> forall|t: int| 0 <= t < k ==> s@[i + t] == pat@[t],
                !all_match ==> !occurs_at(s@, pat@, i as int),
            decreases plen - k,
        {
            if s.get_char(i + k) != pat.get_char(k) {
                proof {
                    assert(!(s@.subrange(i as int, i + pat@.len()) =~= pat@));
                }
                all_match = false;
                k = plen;
            } else {
                k = k + 1;
            }
        }
        if all_match {
            proof {
                assert(s@.subrange(i as int, i + pat@.len()) =~= pat@);
                assert(occurs_at(s@, pat@, i as int));
                let fo = first_occurrence(s@, pat@);
                assert(fo != -1);
                assert(!(fo < i)) by {
                    if 0 <= fo < i {
                        assert(!occurs_at(s@, pat@, fo));
                        assert(occurs_at(s@, pat@, fo));
                    }
                }
                assert(!(i < fo));
            }
            return Some(i);
        }
        i = i + 1;
    }
    proof {
        let fo = first_occurrence(s@, pat@);
        if fo >= 0 {
            assert(occurs_at(s@, pat@, fo));
            assert(fo + pat@.len() <= s@.len());
            assert(fo < i);
            assert(!occurs_at(s@, pat@, fo));
        }
    }
    None
}

fn decimal_digit_str(d: usize) -> (r: &'static str)
    requires
        d < 10,
    ensures
        r@ == seq![decimal_digit(d as nat)],
{
    let r: &'static str = if d == 0 {
        "0"
    } else if d == 1 {
        "1"
    } else if d == 2 {
        "2"
    } else if d == 3 {
        "3"
    } else if d == 4 {
        "4"
    } else if d == 5 {
        "5"
    } else if d == 6 {
        "6"
    } else if d == 7 {
        "7"
    } else if d == 8 {
        "8"
    } else {
        "9"
    };
    proof {
        reveal_strlit("0");
        reveal_strlit("1");
        reveal_strlit("2");
        reveal_strlit("3");
        reveal_strlit("4");
        reveal_strlit("5");
        reveal_strlit("6");
        reveal_strlit("7");
        reveal_strlit("8");
        reveal_strlit("9");
        assert(r@ =~= seq![decimal_digit(d as nat)]);
    }
    r
}

/// Decimal rendering of `n` as an owned string.
pub fn usize_to_dec(n: usize) -> (r: String)
    ensures
        r@ == dec_str(n as nat),
    decreases n,
{
    if n < 10 {
        decimal_digit_str(n).to_owned()
    } else {
        let mut s = usize_to_dec(n / 10);
        s.append(decimal_digit_str(n % 10));
        proof {
            assert(dec_str((n / 10) as nat).push(decimal_digit((n % 10) as nat)) =~= dec_str(
                (n / 10) as nat,
            ) + seq![decimal_digit((n % 10) as nat)]);
        }
        s
    }
}

/// Copy of the character range `[from, to)` of `s`.
pub fn substring_copy(s: &str, from: usize, to: usize) -> (r: String)
    requires
        from <= to <= s@.len(),
    ensures
        r@ == s@.subrange(from as int, to as int),
{
    s.substring_char(from, to).to_owned()
}

} // verus!
