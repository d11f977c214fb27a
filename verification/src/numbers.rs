//! Verified decimal parsing of unsigned and signed 64-bit integers,
//! following the grammar `str::parse::<u64>` and `str::parse::<i64>`
//! accept: an optional sign, then one or more ASCII digits, with the
//! value required to fit the target type.

use vstd::prelude::*;

verus! {

/// An ASCII decimal digit.
pub open spec fn is_digit(c: char) -> bool {
    '0' <= c && c <= '9'
}

/// Numeric value of a digit character.
pub open spec fn digit_val(c: char) -> nat {
    (c as u32 - 48) as nat
}

/// Whether every character of `s` is a decimal digit.
pub open spec fn all_digits(s: Seq<char>) -> bool {
    forall|i: int| 0 <= i < s.len() ==> is_digit(#[trigger] s[i])
}

/// Value of a digit string read in base ten.
pub open spec fn digits_val(s: Seq<char>) -> nat
    decreases s.len(),
{
    if s.len() == 0 {
        0
    } else {
        digits_val(s.drop_last()) * 10 + digit_val(s.last())
    }
}

/// The digits of an unsigned literal: everything after an optional
/// leading `+`.
pub open spec fn unsigned_body(s: Seq<char>) -> Seq<char> {
    if s.len() > 0 && s[0] == '+' {
        s.skip(1)
    } else {
        s
    }
}

/// Whether `s` is accepted by `str::parse::<u64>`: an optional `+`,
/// at least one digit, and a value at most `u64::MAX`.
pub open spec fn parses_as_u64(s: Seq<char>) -> bool {
    let t = unsigned_body(s);
    t.len() > 0 && all_digits(t) && digits_val(t) <= u64::MAX
}

/// Value of an unsigned decimal literal.
pub open spec fn u64_val(s: Seq<char>) -> nat {
    digits_val(unsigned_body(s))
}

/// The digits of a signed literal: everything after an optional
/// leading `-` or `+`.
pub open spec fn signed_body(s: Seq<char>) -> Seq<char> {
    if s.len() > 0 && (s[0] == '-' || s[0] == '+') {
        s.skip(1)
    } else {
        s
    }
}

/// Whether a signed literal is negative.
pub open spec fn is_negative_literal(s: Seq<char>) -> bool {
    s.len() > 0 && s[0] == '-'
}

/// Whether `s` is accepted by `str::parse::<i64>`: an optional sign,
/// at least one digit, and a value within the range of `i64`.
pub open spec fn parses_as_i64(s: Seq<char>) -> bool {
    let t = signed_body(s);
    t.len() > 0 && all_digits(t) && (if is_negative_literal(s) {
        digits_val(t) <= 0x8000000000000000
    } else {
        digits_val(t) <= i64::MAX
    })
}

/// Value of a signed decimal literal.
pub open spec fn i64_val(s: Seq<char>) -> int {
    if is_negative_literal(s) {
        -(digits_val(signed_body(s)) as int)
    } else {
        digits_val(signed_body(s)) as int
    }
}

/// The value of a digit string never drops when the string is extended:
/// a prefix reads at most the value of the whole.
proof fn lemma_digits_val_prefix(s: Seq<char>, k: int)
    requires
        0 <= k <= s.len(),
    ensures
        digits_val(s.subrange(0, k)) <= digits_val(s),
    decreases s.len() - k,
{
    if k == s.len() {
        assert(s.subrange(0, k) =~= s);
    } else {
        let a = s.subrange(0, k);
        let b = s.subrange(0, k + 1);
        assert(b.drop_last() =~= a);
        assert(digits_val(b) == digits_val(a) * 10 + digit_val(b.last()));
        assert(digits_val(a) * 10 >= digits_val(a));
        lemma_digits_val_prefix(s, k + 1);
    }
}

/// Accumulate the decimal digits of `s` from position `start` on, or
/// report that they do not form a `u64` value.
fn digits_to_u64(s: &str, start: usize) -> (r: Option<u64>)
    requires
        start <= s@.len(),
    ensures
        ({
            let t = s@.skip(start as int);
            match r {
                Some(v) => t.len() > 0 && all_digits(t) && digits_val(t) == v,
                None => !(t.len() > 0 && all_digits(t) && digits_val(t) <= u64::MAX),
            }
        }),
{
    let n = s.unicode_len();
    if start == n {
        return None;
    }
    let ghost t = s@.skip(start as int);
    let mut acc: u64 = 0;
    let mut i: usize = start;
    proof {
        assert(s@.subrange(start as int, start as int) =~= Seq::<char>::empty());
    }
    while i < n
        invariant
            start <= i <= n,
            n == s@.len(),
            t == s@.skip(start as int),
            all_digits(s@.subrange(start as int, i as int)),
            acc == digits_val(s@.subrange(start as int, i as int)),
        decreases n - i,
    {
        let c = s.get_char(i);
        proof {
            assert(t[i - start] == s@[i as int]);
        }
        if !(c >= '0' && c <= '9') {
            return None;
        }
        let d: u64 = (c as u32 - 48) as u64;
        let ghost prefix = s@.subrange(start as int, i as int);
        let ghost extended = s@.subrange(start as int, i as int + 1);
        proof {
            assert(extended.drop_last() =~= prefix);
            assert(extended.last() == s@[i as int]);
            assert(digits_val(extended) == acc * 10 + d);
        }
        if acc > 1844674407370955161 || (acc == 1844674407370955161 && d > 5) {
            proof {
                assert(digits_val(extended) > u64::MAX);
                assert(extended =~= t.subrange(0, i - start + 1));
                lemma_digits_val_prefix(t, i - start + 1);
                assert(digits_val(t) > u64::MAX);
            }
            return None;
        }
        acc = acc * 10 + d;
        i += 1;
    }
    proof {
        assert(s@.subrange(start as int, n as int) =~= t);
    }
    Some(acc)
}

/// Parse `s` as an unsigned 64-bit decimal integer, accepting exactly
/// the strings `str::parse::<u64>` accepts.
pub fn parse_u64(s: &str) -> (r: Option<u64>)
    ensures
        match r {
            Some(v) => parses_as_u64(s@) && v == u64_val(s@),
            None => !parses_as_u64(s@),
        },
{
    let n = s.unicode_len();
    if n == 0 {
        return None;
    }
    let start: usize = if s.get_char(0) == '+' {
        1
    } else {
        0
    };
    proof {
        if start == 1 {
            assert(unsigned_body(s@) == s@.skip(1));
        } else {
            assert(unsigned_body(s@) == s@.skip(0));
            assert(s@.skip(0) =~= s@);
        }
    }
    digits_to_u64(s, start)
}

/// Parse `s` as a signed 64-bit decimal integer, accepting exactly the
/// strings `str::parse::<i64>` accepts.
pub fn parse_i64(s: &str) -> (r: Option<i64>)
    ensures
        match r {
            Some(v) => parses_as_i64(s@) && v == i64_val(s@),
            None => !parses_as_i64(s@),
        },
{
    let n = s.unicode_len();
    if n == 0 {
        return None;
    }
    let c0 = s.get_char(0);
    let negative = c0 == '-';
    let start: usize = if negative || c0 == '+' {
        1
    } else {
        0
    };
    proof {
        if start == 1 {
            assert(signed_body(s@) == s@.skip(1));
        } else {
            assert(signed_body(s@) == s@.skip(0));
            assert(s@.skip(0) =~= s@);
        }
    }
    match digits_to_u64(s, start) {
        None => None,
        Some(v) => {
            if negative {
                if v <= 0x7fffffffffffffff {
                    Some(-(v as i64))
                } else if v == 0x8000000000000000 {
                    Some(i64::MIN)
                } else {
                    None
                }
            } else {
                if v <= 0x7fffffffffffffff {
                    Some(v as i64)
                } else {
                    None
                }
            }
        },
    }
}

} // verus!
