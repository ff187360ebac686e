use vstd::prelude::*;
use crate::codec::{all_hex, decode, fold_case, hex_value, is_hex_digit, pair_byte};
use crate::text::string_of;

verus! {

/// Bytes shown on one line of a dump.
pub const LINE_WIDTH: usize = 16;

/// The lowercase hex digit of `n`, below 16.
pub open spec fn hex_char(n: u8) -> char {
    if n < 10 {
        ((48 + n) as u8) as char
    } else {
        ((87 + n) as u8) as char
    }
}

/// The last `w` hex digits of `n`, most significant first.
pub open spec fn hex_width(n: nat, w: nat) -> Seq<char>
    decreases w,
{
    if w == 0 {
        Seq::empty()
    } else {
        hex_width(n / 16, (w - 1) as nat).push(hex_char((n % 16) as u8))
    }
}

/// How many hex digits `n` has, with no leading zero (`0` has one).
pub open spec fn hex_len(n: nat) -> nat
    decreases n,
{
    if n < 16 {
        1
    } else {
        1 + hex_len(n / 16)
    }
}

pub open spec fn pow16(k: nat) -> nat
    decreases k,
{
    if k == 0 {
        1
    } else {
        16 * pow16((k - 1) as nat)
    }
}

/// A number below `16^k` has at most `k` hex digits.
proof fn lemma_hex_len_bound(n: nat, k: nat)
    requires
        1 <= k,
        n < pow16(k),
    ensures
        hex_len(n) <= k,
    decreases k,
{
    if n >= 16 {
        let p = pow16((k - 1) as nat);
        if k == 1 {
            assert(pow16(0) == 1);
        }
        assert(n / 16 < p) by (nonlinear_arith)
            requires
                n < 16 * p,
        ;
        lemma_hex_len_bound(n / 16, (k - 1) as nat);
    }
}

/// A `u64` has at most sixteen hex digits.
proof fn lemma_u64_hex_len(n: u64)
    ensures
        hex_len(n as nat) <= 16,
{
    reveal_with_fuel(pow16, 17);
    assert(pow16(16) == 0x1_0000_0000_0000_0000);
    lemma_hex_len_bound(n as nat, 16);
}

/// A line address: lowercase hex, zero padded to eight digits at least.
pub open spec fn address_text(n: nat) -> Seq<char> {
    hex_width(n, if hex_len(n) > 8 { hex_len(n) } else { 8 })
}

/// What stands at global slot `g` of a dump whose data begin `shift` slots into
/// the first line: a byte, or nothing before the data and after it.
pub open spec fn slot(data: Seq<u8>, shift: int, g: int) -> Option<u8> {
    if g < shift || g - shift >= data.len() {
        None
    } else {
        Some(data[g - shift])
    }
}

/// A slot in the hex field: two lowercase digits, or `..`.
pub open spec fn hex_cell(o: Option<u8>) -> Seq<char> {
    match o {
        Some(b) => seq![hex_char(b / 16), hex_char(b % 16)],
        None => seq!['.', '.'],
    }
}

/// Whether byte `b` is shown as itself in the text field: graphic ASCII or space.
pub open spec fn is_shown(b: u8) -> bool {
    0x20 <= b && b <= 0x7e
}

/// A slot in the text field.
pub open spec fn text_cell(o: Option<u8>) -> char {
    match o {
        Some(b) => if is_shown(b) { b as char } else { '.' },
        None => '.',
    }
}

/// The first `k` cells of the hex field of line `line`, each but the sixteenth
/// followed by a space.
pub open spec fn hex_field(data: Seq<u8>, shift: int, line: int, k: int) -> Seq<char>
    decreases k,
{
    if k <= 0 {
        Seq::empty()
    } else {
        hex_field(data, shift, line, k - 1) + hex_cell(slot(data, shift, 16 * line + k - 1)) + if k
            < 16 {
            seq![' ']
        } else {
            Seq::empty()
        }
    }
}

/// The first `k` cells of the text field of line `line`.
pub open spec fn text_field(data: Seq<u8>, shift: int, line: int, k: int) -> Seq<char>
    decreases k,
{
    if k <= 0 {
        Seq::empty()
    } else {
        text_field(data, shift, line, k - 1).push(text_cell(slot(data, shift, 16 * line + k - 1)))
    }
}

/// How many lines a dump of `len` bytes from `offset` takes.
pub open spec fn line_count(offset: u64, len: nat) -> nat {
    ((offset % 16) as nat + len + 15) / 16
}

/// Line `line` of the dump of `data` read from `offset`, without its line break.
pub open spec fn line_text(offset: u64, data: Seq<u8>, line: int) -> Seq<char> {
    let shift = (offset % 16) as int;
    let base = offset - shift;
    address_text((base + 16 * line) as nat) + seq![':', ' '] + hex_field(data, shift, line, 16)
        + seq![' ', '|'] + text_field(data, shift, line, 16) + seq!['|']
}

/// The dump of `data` read from `offset`, one line per entry.
pub open spec fn dump_text(offset: u64, data: Seq<u8>) -> Seq<Seq<char>> {
    Seq::new(line_count(offset, data.len()), |l: int| line_text(offset, data, l))
}

/// The digit a hex value is shown with is the digit it was read from, in small
/// letters.
proof fn lemma_hex_char_of_value(c: char)
    requires
        is_hex_digit(c),
    ensures
        hex_char(hex_value(c) % 16) == fold_case(c),
{
    let u = c as u32;
    if '0' <= c && c <= '9' {
        assert(((u as u8) as char) == c);
    } else if 'a' <= c && c <= 'f' {
        assert(((u as u8) as char) == c);
    } else {
        assert(((u + 32) as u8) as char == fold_case(c));
    }
}

/// Decoded hex text dumps back to itself: from a line start, the hex cell of
/// byte `i` is the two digits it was decoded from, letters made small.
pub proof fn lemma_dump_shows_decoded(h: Seq<char>, i: int)
    requires
        h.len() > 0,
        h.len() % 2 == 0,
        all_hex(h),
        0 <= i < h.len() / 2,
    ensures
        decode(h) is Ok,
        hex_cell(slot(decode(h)->Ok_0, 0, i)) == seq![fold_case(h[2 * i]), fold_case(h[2 * i + 1])],
{
    crate::codec::lemma_decode_length(h);
    crate::codec::lemma_hex_text_untrimmed(h);
    let hi = h[2 * i];
    let lo = h[2 * i + 1];
    assert(is_hex_digit(hi));
    assert(is_hex_digit(lo));
    let a = hex_value(hi);
    let b = hex_value(lo);
    let byte = pair_byte(hi, lo);
    assert(decode(h)->Ok_0[i] == byte);
    assert(byte / 16 == a % 16 && byte % 16 == b % 16) by (nonlinear_arith)
        requires
            a < 16,
            b < 16,
            byte == (a * 16 + b) as u8,
    ;
    lemma_hex_char_of_value(hi);
    lemma_hex_char_of_value(lo);
}

/// No bytes from an offset on the line grid make no lines.
pub proof fn lemma_empty_dump(offset: u64)
    requires
        offset % 16 == 0,
    ensures
        dump_text(offset, Seq::empty()).len() == 0,
{
}

fn hex_char_of(n: u8) -> (r: char)
    requires
        n < 16,
    ensures
        r == hex_char(n),
{
    if n < 10 {
        (48 + n) as char
    } else {
        (87 + n) as char
    }
}

/// Appends the last `w` hex digits of `n`.
fn push_hex(out: &mut Vec<char>, n: u64, w: usize)
    ensures
        final(out)@ == old(out)@ + hex_width(n as nat, w as nat),
    decreases w,
{
    if w > 0 {
        push_hex(out, n / 16, w - 1);
        out.push(hex_char_of((n % 16) as u8));
    }
}

/// Appends the address `n` as a dump line shows it.
fn push_address(out: &mut Vec<char>, n: u64)
    ensures
        final(out)@ == old(out)@ + address_text(n as nat),
{
    let mut m: u64 = n;
    let mut len: usize = 1;
    proof {
        lemma_u64_hex_len(n);
    }
    while m >= 16
        invariant
            len as nat + hex_len(m as nat) == hex_len(n as nat) + 1,
            hex_len(n as nat) <= 16,
        decreases m,
    {
        m = m / 16;
        len = len + 1;
    }
    let w = if len > 8 { len } else { 8 };
    push_hex(out, n, w);
}

/// Slot `i` of a line that shows `pad` empty slots and then `data` from `start`.
fn slot_at(data: &[u8], start: usize, pad: usize, i: usize) -> (r: Option<u8>)
    requires
        start <= data.len(),
    ensures
        r == (if i < pad || i - pad >= data.len() - start {
            None
        } else {
            Some(data@[start + i - pad])
        }),
{
    if i < pad || i - pad >= data.len() - start {
        None
    } else {
        Some(data[start + (i - pad)])
    }
}

/// Line `line` of the dump of `data` read from `offset`, given the line's address,
/// the data index of its first byte and the empty slots before that byte.
fn render_line(
    offset: u64,
    data: &[u8],
    addr: u64,
    start: usize,
    pad: usize,
    Ghost(line): Ghost<int>,
) -> (r: Vec<char>)
    requires
        0 <= line,
        addr == offset - offset % 16 + 16 * line,
        start <= data.len(),
        line == 0 ==> start == 0 && pad == offset % 16,
        line > 0 ==> pad == 0 && start + offset % 16 == 16 * line,
    ensures
        r@ == line_text(offset, data@, line),
{
    let ghost shift = (offset % 16) as int;
    let mut out: Vec<char> = Vec::new();
    push_address(&mut out, addr);
    out.push(':');
    out.push(' ');
    let ghost head = out@;
    let mut i: usize = 0;
    while i < LINE_WIDTH
        invariant
            i <= 16,
            start <= data.len(),
            shift == offset % 16,
            0 <= shift < 16,
            0 <= line,
            line == 0 ==> start == 0 && pad == shift,
            line > 0 ==> pad == 0 && start + shift == 16 * line,
            out@ == head + hex_field(data@, shift, line, i as int),
        decreases 16 - i,
    {
        let cell = slot_at(data, start, pad, i);
        assert(cell == slot(data@, shift, 16 * line + i));
        let ghost before = out@;
        match cell {
            Some(b) => {
                out.push(hex_char_of(b / 16));
                out.push(hex_char_of(b % 16));
            },
            None => {
                out.push('.');
                out.push('.');
            },
        }
        if i + 1 < LINE_WIDTH {
            out.push(' ');
        }
        assert(out@ =~= head + hex_field(data@, shift, line, i + 1));
        i = i + 1;
    }
    out.push(' ');
    out.push('|');
    let ghost mid = out@;
    let mut i: usize = 0;
    while i < LINE_WIDTH
        invariant
            i <= 16,
            start <= data.len(),
            shift == offset % 16,
            0 <= shift < 16,
            0 <= line,
            line == 0 ==> start == 0 && pad == shift,
            line > 0 ==> pad == 0 && start + shift == 16 * line,
            out@ == mid + text_field(data@, shift, line, i as int),
        decreases 16 - i,
    {
        let cell = slot_at(data, start, pad, i);
        assert(cell == slot(data@, shift, 16 * line + i));
        let c = match cell {
            Some(b) => if 0x20 <= b && b <= 0x7e {
                b as char
            } else {
                '.'
            },
            None => '.',
        };
        out.push(c);
        assert(out@ =~= mid + text_field(data@, shift, line, i + 1));
        i = i + 1;
    }
    out.push('|');
    assert(out@ =~= line_text(offset, data@, line));
    out
}

/// Renders `data`, read from `offset`, as dump lines of sixteen slots: the line
/// address, the slots in hex, and the slots as text. Slots before the data and
/// after it show as `..` and `.`.
pub fn render_hexdump(offset: u64, data: &[u8]) -> (r: Vec<String>)
    requires
        offset + data.len() <= u64::MAX + 1,
    ensures
        r.len() == dump_text(offset, data@).len(),
        forall|l: int| 0 <= l < r.len() ==> #[trigger] r[l]@ == dump_text(offset, data@)[l],
{
    let shift = (offset % 16) as usize;
    let base = offset - offset % 16;
    let n = data.len();
    let mut lines: Vec<String> = Vec::new();
    let mut line: usize = 0;
    let mut start: usize = 0;
    while start < n || (line == 0 && shift > 0)
        invariant
            n == data.len(),
            offset + n <= u64::MAX + 1,
            shift == offset % 16,
            base == offset - shift,
            start <= n,
            lines.len() == line,
            line == 0 ==> start == 0,
            line > 0 ==> 16 * (line - 1) < shift + n,
            line > 0 ==> start + shift == 16 * line || (start == n && 16 * line >= shift + n),
            forall|l: int| 0 <= l < line ==> #[trigger] lines[l]@ == line_text(offset, data@, l),
        decreases (n - start) as int + if line == 0 { 1int } else { 0int },
    {
        let pad = if line == 0 { shift } else { 0 };
        let addr = base + (line as u64) * 16;
        let chars = render_line(offset, data, addr, start, pad, Ghost(line as int));
        lines.push(string_of(&chars));
        if n - start <= LINE_WIDTH - pad {
            start = n;
        } else {
            start = start + (LINE_WIDTH - pad);
        }
        line = line + 1;
    }
    assert(line == line_count(offset, n as nat));
    lines
}

} // verus!
