//! Character-level text utilities: trimming whitespace, stripping one
//! layer of surrounding quotes, locating a character, and comparing
//! strings, each with a specification over the string's character view.

use vstd::prelude::*;
use crate::is_space;

verus! {

/// `s` without its leading whitespace characters.
pub open spec fn trim_front(s: Seq<char>) -> Seq<char>
    decreases s.len(),
{
    if s.len() > 0 && is_space(s[0]) {
        trim_front(s.skip(1))
    } else {
        s
    }
}

/// `s` without its trailing whitespace characters.
pub open spec fn trim_back(s: Seq<char>) -> Seq<char>
    decreases s.len(),
{
    if s.len() > 0 && is_space(s[s.len() - 1]) {
        trim_back(s.drop_last())
    } else {
        s
    }
}

/// `s` without leading and trailing whitespace.
pub open spec fn trim_text(s: Seq<char>) -> Seq<char> {
    trim_back(trim_front(s))
}

/// A single-quote or double-quote character.
pub open spec fn is_quote(c: char) -> bool {
    c == '\'' || c == '"'
}

/// `s` with one layer of surrounding quotes removed: if `s` starts and
/// ends with the same quote character, both are stripped; otherwise `s`
/// is returned unchanged.
pub open spec fn unquote_text(s: Seq<char>) -> Seq<char> {
    if s.len() >= 2 && s[0] == s[s.len() - 1] && is_quote(s[0]) {
        s.subrange(1, s.len() - 1)
    } else {
        s
    }
}

/// Index of the first occurrence of `c` in `s`, or `-1` if absent.
pub open spec fn find_ch(s: Seq<char>, c: char) -> int
    decreases s.len(),
{
    if s.len() == 0 {
        -1
    } else if s[0] == c {
        0
    } else {
        let r = find_ch(s.skip(1), c);
        if r < 0 {
            -1
        } else {
            r + 1
        }
    }
}

/// `find_ch` returns `-1` exactly when `c` does not occur in `s`, and
/// otherwise the position of the first occurrence.
pub proof fn lemma_find_ch(s: Seq<char>, c: char)
    ensures
        find_ch(s, c) == -1 <==> (forall|i: int| 0 <= i < s.len() ==> s[i] != c),
        find_ch(s, c) != -1 ==> {
            let p = find_ch(s, c);
            &&& 0 <= p < s.len()
            &&& s[p] == c
            &&& (forall|i: int| 0 <= i < p ==> s[i] != c)
        },
    decreases s.len(),
{
    if s.len() == 0 {
    } else if s[0] == c {
    } else {
        lemma_find_ch(s.skip(1), c);
        let r = find_ch(s.skip(1), c);
        if r < 0 {
            assert(forall|i: int| 0 <= i < s.len() ==> s[i] != c) by {
                assert(forall|i: int| 1 <= i < s.len() ==> s[i] == s.skip(1)[i - 1]);
            }
        } else {
            assert(s[r + 1] == s.skip(1)[r]);
            assert(forall|i: int| 1 <= i < r + 1 ==> s[i] == s.skip(1)[i - 1]);
        }
    }
}

/// Position of the first occurrence of `c` in `s`, if any.
pub fn find_char(s: &str, c: char) -> (r: Option<usize>)
    ensures
        match r {
            Some(p) => find_ch(s@, c) == p,
            None => find_ch(s@, c) == -1,
        },
{
    let n = s.unicode_len();
    let mut i: usize = 0;
    while i < n
        invariant
            0 <= i <= n,
            n == s@.len(),
            forall|j: int| 0 <= j < i ==> s@[j] != c,
        decreases n - i,
    {
        if s.get_char(i) == c {
            proof {
                lemma_find_ch(s@, c);
            }
            return Some(i);
        }
        i += 1;
    }
    proof {
        lemma_find_ch(s@, c);
    }
    None
}

/// Whether two string slices hold the same characters.
pub fn str_eq(a: &str, b: &str) -> (r: bool)
    ensures
        r == (a@ == b@),
{
    let n = a.unicode_len();
    let m = b.unicode_len();
    if n != m {
        return false;
    }
    let mut i: usize = 0;
    while i < n
        invariant
            0 <= i <= n,
            n == a@.len(),
            n == b@.len(),
            forall|j: int| 0 <= j < i ==> a@[j] == b@[j],
        decreases n - i,
    {
        if a.get_char(i) != b.get_char(i) {
            return false;
        }
        i += 1;
    }
    proof {
        assert(a@ =~= b@);
    }
    true
}

/// `s` with leading and trailing whitespace removed.
pub fn trim(s: &str) -> (r: &str)
    ensures
        r@ == trim_text(s@),
{
    let n = s.unicode_len();
    let mut lo: usize = 0;
    proof {
        assert(s@.skip(0) =~= s@);
    }
    while lo < n && crate::is_space_char(s.get_char(lo))
        invariant
            0 <= lo <= n,
            n == s@.len(),
            trim_front(s@) == trim_front(s@.skip(lo as int)),
        decreases n - lo,
    {
        proof {
            assert(s@.skip(lo as int)[0] == s@[lo as int]);
            assert(s@.skip(lo as int).skip(1) =~= s@.skip(lo as int + 1));
        }
        lo += 1;
    }
    proof {
        assert(trim_front(s@) == s@.skip(lo as int));
    }
    let mut hi: usize = n;
    while hi > lo && crate::is_space_char(s.get_char(hi - 1))
        invariant
            lo <= hi <= n,
            n == s@.len(),
            trim_front(s@) == s@.skip(lo as int),
            trim_back(s@.subrange(lo as int, n as int)) == trim_back(
                s@.subrange(lo as int, hi as int),
            ),
        decreases hi,
    {
        proof {
            let t = s@.subrange(lo as int, hi as int);
            assert(t[t.len() - 1] == s@[hi - 1]);
            assert(t.drop_last() =~= s@.subrange(lo as int, hi as int - 1));
        }
        hi -= 1;
    }
    proof {
        assert(s@.skip(lo as int) =~= s@.subrange(lo as int, n as int));
        let t = s@.subrange(lo as int, hi as int);
        if hi > lo {
            assert(!is_space(t[t.len() - 1]));
        }
        assert(trim_back(t) == t);
    }
    s.substring_char(lo, hi)
}

/// `s` with one layer of surrounding quotes removed.
pub fn unquote(s: &str) -> (r: &str)
    ensures
        r@ == unquote_text(s@),
{
    let n = s.unicode_len();
    if n >= 2 {
        let first = s.get_char(0);
        let last = s.get_char(n - 1);
        if first == last && (first == '\'' || first == '"') {
            return s.substring_char(1, n - 1);
        }
    }
    s
}

} // verus!
