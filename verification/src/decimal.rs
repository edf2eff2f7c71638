//! Decimal rendering and parsing of unsigned integers.
//!
//! The textual forms used throughout this crate (tree-location CSV, the
//! collapsed-text encodings, the template map) all spell numbers as plain
//! base-ten digit runs.  This module defines that digit run once, as a
//! spec-level sequence, proves the renderer and the parser against it, and
//! proves that the two are inverses.

use crate::strutil::string_push;
use vstd::prelude::*;

verus! {

/// The character for one decimal digit value.
pub open spec fn dec_digit(d: nat) -> char {
    (((d % 10) + 48) as u8) as char
}

/// The canonical base-ten digit run of `n`: no sign, no leading zeros
/// (a single `'0'` for zero).
pub open spec fn dec_digits(n: nat) -> Seq<char>
    decreases n,
{
    if n < 10 {
        seq![dec_digit(n)]
    } else {
        dec_digits(n / 10).push(dec_digit(n % 10))
    }
}

/// Whether `c` is a base-ten digit character.
pub open spec fn is_dec_digit(c: char) -> bool {
    48 <= (c as u32) && (c as u32) <= 57
}

/// The numeric value of one digit character.
pub open spec fn dec_digit_val(c: char) -> nat {
    ((c as u32) - 48) as nat
}

/// The value of a digit run, read left to right.
pub open spec fn dec_value(s: Seq<char>) -> nat
    decreases s.len(),
{
    if s.len() == 0 {
        0
    } else {
        dec_value(s.drop_last()) * 10 + dec_digit_val(s.last())
    }
}

/// Whether `s` is a run of one or more digit characters.
pub open spec fn all_dec_digits(s: Seq<char>) -> bool {
    forall|i: int| 0 <= i < s.len() ==> is_dec_digit(#[trigger] s[i])
}

/// The digit character for a value below ten.
fn dec_digit_char(d: u64) -> (c: char)
    requires
        d < 10,
    ensures
        c == dec_digit(d as nat),
{
    (48u8 + (d as u8)) as char
}

/// Appends the canonical digit run of `n` to `s`.
pub fn push_dec_u64(s: &mut String, n: u64)
    ensures
        final(s)@ == old(s)@ + dec_digits(n as nat),
    decreases n,
{
    if n < 10 {
        string_push(s, dec_digit_char(n));
        proof {
            assert(s@ =~= old(s)@ + dec_digits(n as nat));
        }
    } else {
        push_dec_u64(s, n / 10);
        string_push(s, dec_digit_char(n % 10));
        proof {
            assert(s@ =~= old(s)@ + dec_digits(n as nat));
        }
    }
}

/// Renders `n` in its canonical decimal form.
pub fn u64_to_string(n: u64) -> (s: String)
    ensures
        s@ == dec_digits(n as nat),
{
    let mut s = String::new();
    push_dec_u64(&mut s, n);
    proof {
        assert(s@ =~= dec_digits(n as nat));
    }
    s
}

/// Every character of a canonical digit run is a digit.
pub proof fn lemma_dec_digits_are_digits(n: nat)
    ensures
        all_dec_digits(dec_digits(n)),
        dec_digits(n).len() >= 1,
    decreases n,
{
    if n < 10 {
    } else {
        lemma_dec_digits_are_digits(n / 10);
    }
}

/// Reading back the canonical digit run of `n` yields `n`.
pub proof fn lemma_dec_value_of_digits(n: nat)
    ensures
        dec_value(dec_digits(n)) == n,
    decreases n,
{
    if n < 10 {
        assert(dec_digits(n) =~= seq![dec_digit(n)]);
        assert(dec_digits(n).drop_last() =~= Seq::<char>::empty());
        assert(dec_digits(n).last() == dec_digit(n));
        assert(dec_digit_val(dec_digit(n)) == n);
        assert(dec_value(Seq::<char>::empty()) == 0);
        assert(dec_value(dec_digits(n)) == dec_value(dec_digits(n).drop_last()) * 10
            + dec_digit_val(dec_digits(n).last()));
    } else {
        lemma_dec_value_of_digits(n / 10);
        assert(dec_digits(n).drop_last() =~= dec_digits(n / 10));
        assert(dec_digits(n).last() == dec_digit(n % 10));
        assert(dec_digit_val(dec_digit(n % 10)) == n % 10);
    }
}

/// Parses a digit run as a `u64`.  Returns `None` when `s` is empty, when a
/// character is not a digit, or when the value does not fit in a `u64`.
pub fn parse_dec_u64(s: &Vec<char>) -> (r: Option<u64>)
    ensures
        match r {
            Some(n) => all_dec_digits(s@) && s@.len() >= 1 && n == dec_value(s@),
            None => !(all_dec_digits(s@) && s@.len() >= 1 && dec_value(s@) <= u64::MAX),
        },
{
    if s.len() == 0 {
        return None;
    }
    let mut acc: u64 = 0;
    let mut i: usize = 0;
    while i < s.len()
        invariant
            i <= s@.len(),
            all_dec_digits(s@.subrange(0, i as int)),
            acc == dec_value(s@.subrange(0, i as int)),
        decreases s@.len() - i,
    {
        let c: char = s[i];
        let cv: u32 = c as u32;
        if !(48 <= cv && cv <= 57) {
            proof {
                assert(s@[i as int] == c);
                assert(!is_dec_digit(s@[i as int]));
            }
            return None;
        }
        let d: u64 = (cv - 48) as u64;
        if acc > (u64::MAX - d) / 10 {
            proof {
                lemma_dec_value_grows(s@, i as int);
            }
            return None;
        }
        proof {
            assert(s@.subrange(0, i + 1).drop_last() =~= s@.subrange(0, i as int));
            assert(s@.subrange(0, i + 1).last() == s@[i as int]);
        }
        acc = acc * 10 + d;
        i += 1;
    }
    proof {
        assert(s@.subrange(0, s@.len() as int) =~= s@);
    }
    Some(acc)
}

/// If a prefix of a digit run already exceeds what extending keeps bounded,
/// the whole run's value exceeds `u64::MAX`.
proof fn lemma_dec_value_grows(s: Seq<char>, i: int)
    requires
        0 <= i < s.len(),
        is_dec_digit(s[i]),
        dec_value(s.subrange(0, i)) * 10 + dec_digit_val(s[i]) > u64::MAX,
    ensures
        dec_value(s) > u64::MAX,
    decreases s.len() - i,
{
    assert(s.subrange(0, i + 1).drop_last() =~= s.subrange(0, i));
    assert(s.subrange(0, i + 1).last() == s[i]);
    if i + 1 == s.len() {
        assert(s.subrange(0, i + 1) =~= s);
    } else {
        lemma_dec_value_monotone(s, i + 1);
    }
}

/// A digit run's value is at least the value of any of its prefixes.
proof fn lemma_dec_value_monotone(s: Seq<char>, i: int)
    requires
        0 <= i <= s.len(),
    ensures
        dec_value(s) >= dec_value(s.subrange(0, i)),
    decreases s.len() - i,
{
    if i == s.len() {
        assert(s.subrange(0, i) =~= s);
    } else {
        lemma_dec_value_monotone(s, i + 1);
        assert(s.subrange(0, i + 1).drop_last() =~= s.subrange(0, i));
    }
}

} // verus!

verus! {

/// Whether `s` is a digit run whose value fits in `u32`.
pub open spec fn is_u32_field(s: Seq<char>) -> bool {
    s.len() >= 1 && all_dec_digits(s) && dec_value(s) <= u32::MAX
}

/// Whether `s` is a digit run whose value fits in `usize`.
pub open spec fn is_usize_field(s: Seq<char>) -> bool {
    s.len() >= 1 && all_dec_digits(s) && dec_value(s) <= usize::MAX
}

/// Parses a digit run as a `u32`; `None` exactly when `s` is not a digit
/// run or its value does not fit.
pub fn parse_u32_field(v: &Vec<char>) -> (r: Option<u32>)
    ensures
        match r {
            Some(n) => is_u32_field(v@) && n == dec_value(v@),
            None => !is_u32_field(v@),
        },
{
    match parse_dec_u64(v) {
        Some(n) => {
            if n <= u32::MAX as u64 {
                Some(n as u32)
            } else {
                None
            }
        },
        None => None,
    }
}

/// Parses a digit run as a `usize`; `None` exactly when `s` is not a digit
/// run or its value does not fit.
pub fn parse_usize_field(v: &Vec<char>) -> (r: Option<usize>)
    ensures
        match r {
            Some(n) => is_usize_field(v@) && n == dec_value(v@),
            None => !is_usize_field(v@),
        },
{
    match parse_dec_u64(v) {
        Some(n) => {
            if n <= usize::MAX as u64 {
                Some(n as usize)
            } else {
                None
            }
        },
        None => None,
    }
}

/// A canonical digit run never contains a non-digit character.
pub proof fn lemma_digits_no_char(n: nat, d: char)
    requires
        !is_dec_digit(d),
    ensures
        !crate::split::has_char(dec_digits(n), d),
{
    lemma_dec_digits_are_digits(n);
    if crate::split::has_char(dec_digits(n), d) {
        let j = choose|j: int| 0 <= j < dec_digits(n).len() && dec_digits(n)[j] == d;
        assert(is_dec_digit(dec_digits(n)[j]));
    }
}

} // verus!
