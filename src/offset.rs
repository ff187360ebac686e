use vstd::prelude::*;
use crate::codec::{from_hex_digit, hex_value, is_hex_digit, ParseError};
use crate::text::chars_of;

verus! {

/// Whether `s` starts with `0x` or `0X`.
pub open spec fn has_hex_prefix(s: Seq<char>) -> bool {
    s.len() >= 2 && s[0] == '0' && (s[1] == 'x' || s[1] == 'X')
}

/// Whether `c` is a digit in base `radix` (10 or 16).
pub open spec fn is_digit_in(c: char, radix: nat) -> bool {
    if radix == 16 {
        is_hex_digit(c)
    } else {
        '0' <= c && c <= '9'
    }
}

/// The number that the digits `d` spell in base `radix`, most significant first.
pub open spec fn digits_value(d: Seq<char>, radix: nat) -> nat
    decreases d.len(),
{
    if d.len() == 0 {
        0
    } else {
        digits_value(d.drop_last(), radix) * radix + hex_value(d.last()) as nat
    }
}

/// The digits of an offset token: what follows the prefix, or the whole token.
pub open spec fn offset_digits(s: Seq<char>) -> Seq<char> {
    if has_hex_prefix(s) {
        s.subrange(2, s.len() as int)
    } else {
        s
    }
}

pub open spec fn offset_radix(s: Seq<char>) -> nat {
    if has_hex_prefix(s) {
        16
    } else {
        10
    }
}

/// What parsing the offset token `s` gives.
pub open spec fn offset_of(s: Seq<char>) -> Result<u64, ParseError> {
    let d = offset_digits(s);
    let r = offset_radix(s);
    if d.len() > 0 && (forall|i: int| 0 <= i < d.len() ==> #[trigger] is_digit_in(d[i], r))
        && digits_value(d, r) <= u64::MAX {
        Ok(digits_value(d, r) as u64)
    } else {
        Err(ParseError::InvalidOffset)
    }
}

/// A number is never smaller than the one its leading digits spell.
proof fn lemma_prefix_value_le(d: Seq<char>, k: int, radix: nat)
    requires
        0 <= k <= d.len(),
        radix >= 1,
    ensures
        digits_value(d.take(k), radix) <= digits_value(d, radix),
    decreases d.len(),
{
    if k < d.len() {
        let p = d.drop_last();
        lemma_prefix_value_le(p, k, radix);
        assert(p.take(k) =~= d.take(k));
        let a = digits_value(p, radix);
        let x = hex_value(d.last()) as nat;
        assert(a <= a * radix + x) by (nonlinear_arith)
            requires
                radix >= 1,
        ;
    } else {
        assert(d.take(k) =~= d);
    }
}

/// Parses an offset: base 16 after a `0x` or `0X` prefix, base 10 otherwise.
pub fn parse_offset(s: &str) -> (r: Result<u64, ParseError>)
    ensures
        r == offset_of(s@),
{
    let v = chars_of(s);
    let n = v.len();
    let hex = n >= 2 && v[0] == '0' && (v[1] == 'x' || v[1] == 'X');
    let start: usize = if hex { 2 } else { 0 };
    let radix: u64 = if hex { 16 } else { 10 };
    let ghost d = offset_digits(s@);
    assert(d =~= v@.subrange(start as int, n as int));
    if start == n {
        return Err(ParseError::InvalidOffset);
    }
    let mut acc: u64 = 0;
    let mut i: usize = start;
    assert(d.take(0) =~= Seq::<char>::empty());
    while i < n
        invariant
            start <= i <= n == v.len(),
            start < n,
            d == v@.subrange(start as int, n as int),
            d == offset_digits(s@),
            radix as nat == offset_radix(s@),
            radix == 10 || radix == 16,
            acc as nat == digits_value(d.take(i - start), radix as nat),
            forall|j: int| 0 <= j < i - start ==> #[trigger] is_digit_in(d[j], radix as nat),
        decreases n - i,
    {
        let c = v[i];
        let ghost k = (i - start) as int;
        assert(d[k] == c);
        assert(d.take(k + 1).drop_last() =~= d.take(k));
        let ok = if radix == 16 { true } else { '0' <= c && c <= '9' };
        let digit = match from_hex_digit(c) {
            Ok(x) => x,
            Err(_) => {
                assert(!is_digit_in(d[k], radix as nat));
                return Err(ParseError::InvalidOffset);
            },
        };
        if !ok {
            assert(!is_digit_in(d[k], radix as nat));
            return Err(ParseError::InvalidOffset);
        }
        let next = match acc.checked_mul(radix) {
            Some(m) => m.checked_add(digit as u64),
            None => None,
        };
        match next {
            Some(x) => {
                acc = x;
            },
            None => {
                proof {
                    lemma_prefix_value_le(d, k + 1, radix as nat);
                }
                return Err(ParseError::InvalidOffset);
            },
        }
        i = i + 1;
    }
    assert(d.take(n - start) =~= d);
    Ok(acc)
}

} // verus!
