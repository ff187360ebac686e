use vstd::prelude::*;
use crate::text::{chars_of, lemma_ascii_text_len, trim_bounds, trimmed, utf8_text_len, utf8_width};

verus! {

/// Why a piece of text was not accepted as an offset or as hex bytes.
#[derive(Clone, Copy, Debug, PartialEq, Eq, Structural)]
pub enum ParseError {
    /// The offset is not a number in the base its prefix selects.
    InvalidOffset,
    /// The hex payload holds nothing but white space.
    EmptyInput,
    /// The hex payload takes an odd number of bytes in UTF-8.
    OddLength,
    /// The hex payload holds a character outside `[0-9a-fA-F]`.
    InvalidDigit,
}

pub open spec fn is_hex_digit(c: char) -> bool {
    ('0' <= c && c <= '9') || ('a' <= c && c <= 'f') || ('A' <= c && c <= 'F')
}

/// The value of a hex digit, either case.
pub open spec fn hex_value(c: char) -> u8 {
    if '0' <= c && c <= '9' {
        (c as u32 - '0' as u32) as u8
    } else if 'a' <= c && c <= 'f' {
        (c as u32 - 'a' as u32 + 10) as u8
    } else {
        (c as u32 - 'A' as u32 + 10) as u8
    }
}

pub open spec fn all_hex(t: Seq<char>) -> bool {
    forall|i: int| 0 <= i < t.len() ==> #[trigger] is_hex_digit(t[i])
}

/// The byte written as the two hex digits `hi` and `lo`.
pub open spec fn pair_byte(hi: char, lo: char) -> u8 {
    (hex_value(hi) * 16 + hex_value(lo)) as u8
}

/// The bytes that an even run of hex digits spells, two digits each, high first.
pub open spec fn hex_bytes(t: Seq<char>) -> Seq<u8> {
    Seq::new(t.len() / 2, |i: int| pair_byte(t[2 * i], t[2 * i + 1]))
}

/// What decoding the hex text `s` gives. Its length is counted in UTF-8 bytes.
pub open spec fn decode(s: Seq<char>) -> Result<Seq<u8>, ParseError> {
    let t = trimmed(s);
    if t.len() == 0 {
        Err(ParseError::EmptyInput)
    } else if utf8_text_len(t) % 2 != 0 {
        Err(ParseError::OddLength)
    } else if !all_hex(t) {
        Err(ParseError::InvalidDigit)
    } else {
        Ok(hex_bytes(t))
    }
}

/// The value of one hex digit.
pub fn from_hex_digit(c: char) -> (r: Result<u8, ParseError>)
    ensures
        is_hex_digit(c) ==> r == Ok::<u8, ParseError>(hex_value(c)),
        !is_hex_digit(c) ==> r == Err::<u8, ParseError>(ParseError::InvalidDigit),
{
    if '0' <= c && c <= '9' {
        Ok((c as u32 - '0' as u32) as u8)
    } else if 'a' <= c && c <= 'f' {
        Ok((c as u32 - 'a' as u32 + 10) as u8)
    } else if 'A' <= c && c <= 'F' {
        Ok((c as u32 - 'A' as u32 + 10) as u8)
    } else {
        Err(ParseError::InvalidDigit)
    }
}

/// Decodes hex text, two digits per byte, after trimming white space at both ends.
pub fn parse_hex_string(hex: &str) -> (r: Result<Vec<u8>, ParseError>)
    ensures
        match r {
            Ok(v) => decode(hex@) == Ok::<Seq<u8>, ParseError>(v@),
            Err(e) => decode(hex@) == Err::<Seq<u8>, ParseError>(e),
        },
{
    let v = chars_of(hex);
    let (a, b) = trim_bounds(&v);
    let ghost t = v@.subrange(a as int, b as int);
    assert(trimmed(hex@) == t);
    if a == b {
        return Err(ParseError::EmptyInput);
    }
    let mut odd = false;
    let mut i: usize = a;
    while i < b
        invariant
            a <= i <= b <= v.len(),
            odd == (utf8_text_len(v@.subrange(a as int, i as int)) % 2 == 1),
        decreases b - i,
    {
        assert(v@.subrange(a as int, i + 1).drop_last() =~= v@.subrange(a as int, i as int));
        if utf8_width(v[i]) % 2 == 1 {
            odd = !odd;
        }
        i = i + 1;
    }
    if odd {
        return Err(ParseError::OddLength);
    }
    let mut i: usize = a;
    while i < b
        invariant
            a <= i <= b <= v.len(),
            t == v@.subrange(a as int, b as int),
            trimmed(hex@) == t,
            a < b,
            utf8_text_len(t) % 2 == 0,
            forall|j: int| 0 <= j < i - a ==> #[trigger] is_hex_digit(t[j]),
        decreases b - i,
    {
        if from_hex_digit(v[i]).is_err() {
            assert(!is_hex_digit(t[i - a]));
            assert(!all_hex(t));
            return Err(ParseError::InvalidDigit);
        }
        i = i + 1;
    }
    proof {
        assert(all_hex(t));
        assert forall|j: int| 0 <= j < t.len() implies (#[trigger] t[j] as u32) < 0x80 by {
            assert(is_hex_digit(t[j]));
        }
        lemma_ascii_text_len(t);
    }
    let mut out: Vec<u8> = Vec::with_capacity((b - a) / 2);
    let mut i: usize = a;
    while i < b
        invariant
            a <= i <= b <= v.len(),
            t == v@.subrange(a as int, b as int),
            trimmed(hex@) == t,
            a < b,
            all_hex(t),
            utf8_text_len(t) % 2 == 0,
            (b - a) % 2 == 0,
            (i - a) % 2 == 0,
            out.len() == (i - a) / 2,
            forall|j: int| 0 <= j < i - a ==> #[trigger] is_hex_digit(t[j]),
            forall|k: int| 0 <= k < out.len() ==> out[k] == #[trigger] pair_byte(t[2 * k], t[2 * k + 1]),
        decreases b - i,
    {
        let hi = match from_hex_digit(v[i]) {
            Ok(d) => d,
            Err(e) => {
                assert(!is_hex_digit(t[i - a]));
                assert(!all_hex(t));
                return Err(e);
            },
        };
        let lo = match from_hex_digit(v[i + 1]) {
            Ok(d) => d,
            Err(e) => {
                assert(!is_hex_digit(t[i + 1 - a]));
                assert(!all_hex(t));
                return Err(e);
            },
        };
        proof {
            assert(t[i - a] == v[i as int]);
            assert(t[i + 1 - a] == v[i + 1]);
            assert(2 * (out.len() as int) == i - a);
        }
        out.push(hi * 16 + lo);
        i = i + 2;
    }
    assert(out@ =~= hex_bytes(t));
    Ok(out)
}

/// `c` with an ASCII capital letter made small.
pub open spec fn fold_case(c: char) -> char {
    if 'A' <= c && c <= 'Z' {
        ((c as u32 + 32) as u8) as char
    } else {
        c
    }
}

/// Text made of hex digits alone is its own trimmed form, one byte per digit.
pub(crate) proof fn lemma_hex_text_untrimmed(h: Seq<char>)
    requires
        all_hex(h),
    ensures
        trimmed(h) == h,
        utf8_text_len(h) == h.len(),
{
    assert forall|j: int| 0 <= j < h.len() implies (#[trigger] h[j] as u32) < 0x80 by {
        assert(is_hex_digit(h[j]));
    }
    lemma_ascii_text_len(h);
    if h.len() > 0 {
        assert(is_hex_digit(h[0]));
        assert(is_hex_digit(h.last()));
    }
}

/// Non-empty hex text of even length made of digits alone decodes, to half as
/// many bytes as it has characters.
pub proof fn lemma_decode_length(h: Seq<char>)
    requires
        h.len() > 0,
        h.len() % 2 == 0,
        all_hex(h),
    ensures
        decode(h) is Ok,
        decode(h)->Ok_0.len() == h.len() / 2,
{
    lemma_hex_text_untrimmed(h);
}

/// Decoding ignores the case of hex digits: two texts of digits that differ only
/// in the case of their letters decode alike.
pub proof fn lemma_decode_ignores_case(h1: Seq<char>, h2: Seq<char>)
    requires
        all_hex(h1),
        all_hex(h2),
        h1.len() == h2.len(),
        forall|i: int| 0 <= i < h1.len() ==> fold_case(#[trigger] h1[i]) == fold_case(h2[i]),
    ensures
        decode(h1) == decode(h2),
{
    lemma_hex_text_untrimmed(h1);
    lemma_hex_text_untrimmed(h2);
    assert forall|i: int| 0 <= i < h1.len() implies hex_value(#[trigger] h1[i]) == hex_value(
        h2[i],
    ) by {
        assert(is_hex_digit(h1[i]));
        assert(is_hex_digit(h2[i]));
        assert(fold_case(h1[i]) == fold_case(h2[i]));
    }
    assert(hex_bytes(h1) =~= hex_bytes(h2));
}

/// Trimmed text of an odd number of UTF-8 bytes is refused for its length;
/// trimmed text of an even, non-zero number of bytes that holds a character other
/// than a hex digit is refused for that character.
pub proof fn lemma_decode_errors(h: Seq<char>)
    ensures
        utf8_text_len(trimmed(h)) % 2 == 1 ==> decode(h) == Err::<Seq<u8>, ParseError>(
            ParseError::OddLength,
        ),
        utf8_text_len(trimmed(h)) % 2 == 0 && trimmed(h).len() > 0 && (exists|i: int|
            0 <= i < trimmed(h).len() && !is_hex_digit(#[trigger] trimmed(h)[i])) ==> decode(h)
            == Err::<Seq<u8>, ParseError>(ParseError::InvalidDigit),
{
}

} // verus!
