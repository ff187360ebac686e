use hex_tool::codec::{from_hex_digit, parse_hex_string, ParseError};
use hex_tool::command::{plan_command, Command, ToolError, UsageError};
use hex_tool::dump::render_hexdump;
use hex_tool::offset::parse_offset;
use hex_tool::text::{chars_of, is_white, trim_bounds, utf8_width};

#[test]
fn hex_digit_values() {
    assert_eq!(from_hex_digit('0'), Ok(0));
    assert_eq!(from_hex_digit('9'), Ok(9));
    assert_eq!(from_hex_digit('a'), Ok(10));
    assert_eq!(from_hex_digit('F'), Ok(15));
    assert_eq!(from_hex_digit('g'), Err(ParseError::InvalidDigit));
    assert_eq!(from_hex_digit(' '), Err(ParseError::InvalidDigit));
}

#[test]
fn decode_known_vectors() {
    assert_eq!(parse_hex_string("deadbeef"), Ok(vec![0xde, 0xad, 0xbe, 0xef]));
    assert_eq!(parse_hex_string("00ff10"), Ok(vec![0x00, 0xff, 0x10]));
    assert_eq!(parse_hex_string("  0a1B\n"), Ok(vec![0x0a, 0x1b]));
}

#[test]
fn decode_length_is_half() {
    let h = "0123456789abcdefABCDEF00";
    let bytes = parse_hex_string(h).unwrap();
    assert_eq!(bytes.len(), h.len() / 2);
}

#[test]
fn decode_ignores_case() {
    assert_eq!(parse_hex_string("AB"), parse_hex_string("ab"));
    assert_eq!(parse_hex_string("AB"), Ok(vec![0xab]));
    assert_eq!(parse_hex_string("DeAdBeEf"), parse_hex_string("deadbeef"));
}

#[test]
fn decode_empty_input() {
    assert_eq!(parse_hex_string(""), Err(ParseError::EmptyInput));
    assert_eq!(parse_hex_string(" \t\n "), Err(ParseError::EmptyInput));
}

#[test]
fn decode_odd_length() {
    assert_eq!(parse_hex_string("abc"), Err(ParseError::OddLength));
    assert_eq!(parse_hex_string(" a "), Err(ParseError::OddLength));
    assert_eq!(parse_hex_string("xyz"), Err(ParseError::OddLength));
}

#[test]
fn decode_invalid_digit() {
    assert_eq!(parse_hex_string("zz"), Err(ParseError::InvalidDigit));
    assert_eq!(parse_hex_string("a bc"), Err(ParseError::InvalidDigit));
    assert_eq!(parse_hex_string("0g"), Err(ParseError::InvalidDigit));
}

#[test]
fn offset_examples() {
    assert_eq!(parse_offset("0x1A"), Ok(26));
    assert_eq!(parse_offset("26"), Ok(26));
    assert_eq!(parse_offset("0xZZ"), Err(ParseError::InvalidOffset));
}

#[test]
fn offset_edges() {
    assert_eq!(parse_offset("0"), Ok(0));
    assert_eq!(parse_offset("0X1a"), Ok(26));
    assert_eq!(parse_offset("0x0"), Ok(0));
    assert_eq!(parse_offset("18446744073709551615"), Ok(u64::MAX));
    assert_eq!(parse_offset("0xffffffffffffffff"), Ok(u64::MAX));
    assert_eq!(parse_offset("18446744073709551616"), Err(ParseError::InvalidOffset));
    assert_eq!(parse_offset("0x10000000000000000"), Err(ParseError::InvalidOffset));
    assert_eq!(parse_offset(""), Err(ParseError::InvalidOffset));
    assert_eq!(parse_offset("0x"), Err(ParseError::InvalidOffset));
    assert_eq!(parse_offset("1a"), Err(ParseError::InvalidOffset));
    assert_eq!(parse_offset("-1"), Err(ParseError::InvalidOffset));
}

#[test]
fn dump_empty_on_grid() {
    assert!(render_hexdump(0, &[]).is_empty());
    assert!(render_hexdump(32, &[]).is_empty());
}

#[test]
fn dump_empty_off_grid_shows_placeholders() {
    let lines = render_hexdump(5, &[]);
    assert_eq!(lines.len(), 1);
    assert_eq!(
        lines[0],
        "00000000: .. .. .. .. .. .. .. .. .. .. .. .. .. .. .. .. |................|"
    );
}

#[test]
fn dump_sixteen_control_bytes() {
    let data: Vec<u8> = (0u8..16).collect();
    let lines = render_hexdump(0, &data);
    assert_eq!(lines.len(), 1);
    assert_eq!(
        lines[0],
        "00000000: 00 01 02 03 04 05 06 07 08 09 0a 0b 0c 0d 0e 0f |................|"
    );
}

#[test]
fn dump_unaligned_abcd() {
    let lines = render_hexdump(18, &[0x41, 0x42, 0x43, 0x44]);
    assert_eq!(lines.len(), 1);
    assert_eq!(
        lines[0],
        "00000010: .. .. 41 42 43 44 .. .. .. .. .. .. .. .. .. .. |..ABCD..........|"
    );
}

#[test]
fn dump_two_lines_and_text_field() {
    let data: Vec<u8> = vec![0x20, 0x7e, 0x7f, 0x80, 0xff, 0x30, 0x61, 0x5a, 0x21, 0x19, 0x0a, 0x41, 0x42, 0x43, 0x44, 0x45, 0x46, 0x47];
    let lines = render_hexdump(0x1f, &data);
    assert_eq!(lines.len(), 3);
    assert_eq!(
        lines[0],
        "00000010: .. .. .. .. .. .. .. .. .. .. .. .. .. .. .. 20 |............... |"
    );
    assert_eq!(
        lines[1],
        "00000020: 7e 7f 80 ff 30 61 5a 21 19 0a 41 42 43 44 45 46 |~...0aZ!..ABCDEF|"
    );
    assert_eq!(
        lines[2],
        "00000030: 47 .. .. .. .. .. .. .. .. .. .. .. .. .. .. .. |G...............|"
    );
}

#[test]
fn dump_wide_address() {
    let lines = render_hexdump(0x1_2345_6789, &[0xab]);
    assert_eq!(
        lines[0],
        "123456780: .. .. .. .. .. .. .. .. .. ab .. .. .. .. .. .. |................|"
    );
}

#[test]
fn write_then_read_round_trip() {
    let bytes = parse_hex_string("deadbeef").unwrap();
    let lines = render_hexdump(0, &bytes);
    assert_eq!(lines.len(), 1);
    assert!(lines[0].starts_with("00000000: de ad be ef .."));
}

#[test]
fn plan_needs_exactly_one_mode() {
    assert!(matches!(
        plan_command(false, None, "0", Some(4)),
        Err(ToolError::Usage(UsageError::NoMode))
    ));
    assert!(matches!(
        plan_command(true, Some("00"), "0", Some(4)),
        Err(ToolError::Usage(UsageError::BothModes))
    ));
    assert!(matches!(
        plan_command(false, None, "0xZZ", None),
        Err(ToolError::Usage(UsageError::NoMode))
    ));
}

#[test]
fn plan_read_and_write() {
    match plan_command(true, None, "0x10", Some(8)) {
        Ok(Command::Read { offset, size }) => {
            assert_eq!(offset, 16);
            assert_eq!(size, 8);
        }
        other => panic!("unexpected {:?}", other),
    }
    match plan_command(false, Some("deadbeef"), "4", None) {
        Ok(Command::Write { offset, bytes }) => {
            assert_eq!(offset, 4);
            assert_eq!(bytes, vec![0xde, 0xad, 0xbe, 0xef]);
        }
        other => panic!("unexpected {:?}", other),
    }
}

#[test]
fn plan_errors() {
    assert!(matches!(
        plan_command(true, None, "0", None),
        Err(ToolError::Usage(UsageError::MissingSize))
    ));
    assert!(matches!(
        plan_command(true, None, "zz", Some(1)),
        Err(ToolError::Parse(ParseError::InvalidOffset))
    ));
    assert!(matches!(
        plan_command(false, Some("abc"), "0", None),
        Err(ToolError::Parse(ParseError::OddLength))
    ));
    assert!(matches!(
        plan_command(false, Some("  "), "0", None),
        Err(ToolError::Parse(ParseError::EmptyInput))
    ));
}

#[test]
fn white_space_matches_std() {
    for u in 0u32..=0x10ffff {
        if let Some(c) = char::from_u32(u) {
            assert_eq!(is_white(c), c.is_whitespace(), "at U+{:04X}", u);
        }
    }
}

#[test]
fn trim_and_chars() {
    let v = chars_of(" \u{3000}ab c\t");
    assert_eq!(v.len(), 7);
    assert_eq!(trim_bounds(&v), (2, 6));
    let w = chars_of("   ");
    let (a, b) = trim_bounds(&w);
    assert_eq!(a, b);
}

#[test]
fn decode_counts_utf8_bytes() {
    assert_eq!(parse_hex_string("é"), Err(ParseError::InvalidDigit));
    assert_eq!(parse_hex_string("éa"), Err(ParseError::OddLength));
    assert_eq!(parse_hex_string(" éab "), Err(ParseError::InvalidDigit));
    assert_eq!(parse_hex_string("€"), Err(ParseError::OddLength));
}

#[test]
fn utf8_width_matches_std() {
    for u in 0u32..=0x10ffff {
        if let Some(c) = char::from_u32(u) {
            assert_eq!(utf8_width(c), c.len_utf8(), "at U+{:04X}", u);
        }
    }
}

#[test]
fn dump_up_to_the_last_offset() {
    let data: Vec<u8> = vec![0x61; 16];
    let lines = render_hexdump(u64::MAX - 15, &data);
    assert_eq!(lines.len(), 1);
    assert_eq!(
        lines[0],
        "fffffffffffffff0: 61 61 61 61 61 61 61 61 61 61 61 61 61 61 61 61 |aaaaaaaaaaaaaaaa|"
    );
    let lines = render_hexdump(u64::MAX, &[0x00]);
    assert_eq!(
        lines[0],
        "fffffffffffffff0: .. .. .. .. .. .. .. .. .. .. .. .. .. .. .. 00 |................|"
    );
}
