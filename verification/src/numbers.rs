//! Decimal and hexadecimal parsing of the numeric fields that occur
//! in directives: sprite coordinates, priorities and colors.

use vstd::prelude::*;

verus! {

/// Whether `c` is an ASCII decimal digit.
pub open spec fn is_digit(c: char) -> bool {
    48 <= c as u32 <= 57
}

/// The value of a decimal digit, 0 for any other character.
pub open spec fn digit_val(c: char) -> nat {
    if is_digit(c) {
        (c as u32 - 48) as nat
    } else {
        0
    }
}

/// Whether every character of `s` is a decimal digit.
pub open spec fn all_digits(s: Seq<char>) -> bool {
    forall|i: int| 0 <= i < s.len() ==> is_digit(s[i])
}

/// The number denoted by a run of decimal digits, most significant
/// digit first.
pub open spec fn dec_val(s: Seq<char>) -> nat
    decreases s.len(),
{
    if s.len() == 0 {
        0
    } else {
        dec_val(s.drop_last()) * 10 + digit_val(s.last())
    }
}

proof fn lemma_dec_val_extend(s: Seq<char>, k: int)
    requires
        0 <= k < s.len(),
    ensures
        dec_val(s.take(k + 1)) == dec_val(s.take(k)) * 10 + digit_val(s[k]),
{
    assert(s.take(k + 1).drop_last() =~= s.take(k));
    assert(s.take(k + 1).last() == s[k]);
}

proof fn lemma_dec_val_grow(s: Seq<char>, i: int)
    requires
        0 <= i <= s.len(),
    ensures
        dec_val(s) >= dec_val(s.take(i)),
    decreases s.len() - i,
{
    if i < s.len() {
        lemma_dec_val_extend(s, i);
        lemma_dec_val_grow(s, i + 1);
    } else {
        assert(s.take(i) =~= s);
    }
}

/// The value of the digit run `s.subrange(start, s.len())`, when that
/// run is nonempty, all digits, and no greater than `cap`.
pub open spec fn spec_dec_value_from(s: Seq<char>, start: int, cap: u64) -> Option<u64> {
    let m = s.subrange(start, s.len() as int);
    if m.len() == 0 || !all_digits(m) || dec_val(m) > cap {
        None
    } else {
        Some(dec_val(m) as u64)
    }
}

/// Reads the digits of `s` from position `start` to the end as a
/// decimal number no greater than `cap`.
pub fn dec_value_from(s: &str, start: usize, cap: u64) -> (r: Option<u64>)
    requires
        start <= s@.len(),
    ensures
        r == spec_dec_value_from(s@, start as int, cap),
{
    let n: usize = s.unicode_len();
    let ghost m = s@.subrange(start as int, n as int);
    if start == n {
        return None;
    }
    let mut acc: u64 = 0;
    let mut i: usize = start;
    while i < n
        invariant
            n == s@.len(),
            start <= i <= n,
            m == s@.subrange(start as int, n as int),
            forall|j: int| 0 <= j < i - start ==> is_digit(m[j]),
            acc == dec_val(m.take(i - start)),
            acc <= cap,
        decreases n - i,
    {
        let c = s.get_char(i);
        let u: u32 = c as u32;
        proof {
            assert(m[i - start] == s@[i as int]);
        }
        if u < 48 || u > 57 {
            return None;
        }
        proof {
            lemma_dec_val_extend(m, i - start);
        }
        let d: u64 = (u - 48) as u64;
        let next = match acc.checked_mul(10) {
            Some(b) => b.checked_add(d),
            None => None,
        };
        i = i + 1;
        match next {
            Some(v) => {
                if v > cap {
                    proof {
                        lemma_dec_val_grow(m, i - start);
                    }
                    return None;
                }
                acc = v;
            },
            None => {
                proof {
                    lemma_dec_val_grow(m, i - start);
                }
                return None;
            },
        }
    }
    proof {
        assert(m.take(n - start) =~= m);
    }
    Some(acc)
}

/// `s` read as an unsigned decimal number: a nonempty run of ASCII
/// digits whose value fits in a `u32`.
pub open spec fn spec_parse_u32(s: Seq<char>) -> Option<u32> {
    if s.len() == 0 || !all_digits(s) || dec_val(s) > u32::MAX {
        None
    } else {
        Some(dec_val(s) as u32)
    }
}

/// Parses `s` as an unsigned decimal number fitting in a `u32`.
pub fn parse_u32(s: &str) -> (r: Option<u32>)
    ensures
        r == spec_parse_u32(s@),
{
    proof {
        assert(s@.subrange(0, s@.len() as int) =~= s@);
    }
    match dec_value_from(s, 0, 0xFFFF_FFFFu64) {
        Some(v) => Some(v as u32),
        None => None,
    }
}

/// `s` read as a signed decimal number: an optional leading `-`,
/// then a nonempty run of ASCII digits, with a value that fits in an
/// `i64`.
pub open spec fn spec_parse_i64(s: Seq<char>) -> Option<i64> {
    if s.len() >= 1 && s[0] == '-' {
        let m = s.subrange(1, s.len() as int);
        if m.len() == 0 || !all_digits(m) || dec_val(m) > 0x8000_0000_0000_0000 {
            None
        } else {
            Some((0 - dec_val(m)) as i64)
        }
    } else {
        if s.len() == 0 || !all_digits(s) || dec_val(s) > i64::MAX {
            None
        } else {
            Some(dec_val(s) as i64)
        }
    }
}

/// Parses `s` as a signed decimal number fitting in an `i64`.
pub fn parse_i64(s: &str) -> (r: Option<i64>)
    ensures
        r == spec_parse_i64(s@),
{
    let n: usize = s.unicode_len();
    if n >= 1 && s.get_char(0) == '-' {
        match dec_value_from(s, 1, 0x8000_0000_0000_0000u64) {
            Some(v) => {
                if v == 0x8000_0000_0000_0000u64 {
                    Some(i64::MIN)
                } else {
                    Some(-(v as i64))
                }
            },
            None => None,
        }
    } else {
        proof {
            assert(s@.subrange(0, s@.len() as int) =~= s@);
        }
        match dec_value_from(s, 0, 0x7FFF_FFFF_FFFF_FFFFu64) {
            Some(v) => Some(v as i64),
            None => None,
        }
    }
}

/// Whether `c` is an ASCII hexadecimal digit.
pub open spec fn is_hex_digit(c: char) -> bool {
    48 <= c as u32 <= 57 || 97 <= c as u32 <= 102 || 65 <= c as u32 <= 70
}

/// The value of a hexadecimal digit, 0 for any other character.
pub open spec fn hex_digit_val(c: char) -> nat {
    if 48 <= c as u32 <= 57 {
        (c as u32 - 48) as nat
    } else if 97 <= c as u32 <= 102 {
        (c as u32 - 87) as nat
    } else if 65 <= c as u32 <= 70 {
        (c as u32 - 55) as nat
    } else {
        0
    }
}

/// Whether every character of `s` is a hexadecimal digit.
pub open spec fn all_hex_digits(s: Seq<char>) -> bool {
    forall|i: int| 0 <= i < s.len() ==> is_hex_digit(s[i])
}

/// The number denoted by a run of hexadecimal digits, most
/// significant digit first.
pub open spec fn hex_val(s: Seq<char>) -> nat
    decreases s.len(),
{
    if s.len() == 0 {
        0
    } else {
        hex_val(s.drop_last()) * 16 + hex_digit_val(s.last())
    }
}

proof fn lemma_hex_val_extend(s: Seq<char>, k: int)
    requires
        0 <= k < s.len(),
    ensures
        hex_val(s.take(k + 1)) == hex_val(s.take(k)) * 16 + hex_digit_val(s[k]),
{
    assert(s.take(k + 1).drop_last() =~= s.take(k));
    assert(s.take(k + 1).last() == s[k]);
}

proof fn lemma_hex_val_grow(s: Seq<char>, i: int)
    requires
        0 <= i <= s.len(),
    ensures
        hex_val(s) >= hex_val(s.take(i)),
    decreases s.len() - i,
{
    if i < s.len() {
        lemma_hex_val_extend(s, i);
        lemma_hex_val_grow(s, i + 1);
    } else {
        assert(s.take(i) =~= s);
    }
}

/// `s` read as a hexadecimal number: a nonempty run of hexadecimal
/// digits, upper or lower case, whose value fits in a `u32`.
pub open spec fn spec_parse_hex_u32(s: Seq<char>) -> Option<u32> {
    if s.len() == 0 || !all_hex_digits(s) || hex_val(s) > u32::MAX {
        None
    } else {
        Some(hex_val(s) as u32)
    }
}

/// Parses `s` as a hexadecimal number fitting in a `u32`.
pub fn parse_hex_u32(s: &str) -> (r: Option<u32>)
    ensures
        r == spec_parse_hex_u32(s@),
{
    let n: usize = s.unicode_len();
    if n == 0 {
        return None;
    }
    let mut acc: u64 = 0;
    let mut i: usize = 0;
    while i < n
        invariant
            n == s@.len(),
            0 <= i <= n,
            forall|j: int| 0 <= j < i ==> is_hex_digit(s@[j]),
            acc == hex_val(s@.take(i as int)),
            acc <= u32::MAX,
        decreases n - i,
    {
        let c = s.get_char(i);
        let u: u32 = c as u32;
        let d: u32;
        if 48 <= u && u <= 57 {
            d = u - 48;
        } else if 97 <= u && u <= 102 {
            d = u - 87;
        } else if 65 <= u && u <= 70 {
            d = u - 55;
        } else {
            return None;
        }
        proof {
            lemma_hex_val_extend(s@, i as int);
        }
        acc = acc * 16 + d as u64;
        i = i + 1;
        if acc > u32::MAX as u64 {
            proof {
                lemma_hex_val_grow(s@, i as int);
            }
            return None;
        }
    }
    proof {
        assert(s@.take(n as int) =~= s@);
    }
    Some(acc as u32)
}

} // verus!
