use hx::codec::ascii_char;
use hx::text::{digit_to_char, push_decimal, push_padded_digits};
use hx::{
    hex_binary, hex_lower_hex, hex_octal, hex_upper_hex, offset, print_byte, print_offset, Format,
};

#[test]
fn test_offset() {
    let b: u64 = 0x6;
    assert_eq!(offset(b), "0x000006");
    assert_eq!(offset(b), format!("{:#08x}", b));
}

/// hex octal, takes u8
#[test]
pub fn test_hex_octal() {
    let b: u8 = 0x6;
    assert_eq!(hex_octal(b), "0o0006");
    assert_eq!(hex_octal(b), format!("{:#06o}", b));
}

/// hex lower hex, takes u8
#[test]
fn test_hex_lower_hex() {
    let b: u8 = <u8>::max_value(); // 255
    assert_eq!(hex_lower_hex(b), "0xff");
    assert_eq!(hex_lower_hex(b), format!("{:#04x}", b));
}

/// hex upper hex, takes u8
#[test]
fn test_hex_upper_hex() {
    let b: u8 = <u8>::max_value();
    assert_eq!(hex_upper_hex(b), "0xFF");
    assert_eq!(hex_upper_hex(b), format!("{:#04X}", b));
}

/// hex binary, takes u8
#[test]
fn test_hex_binary() {
    let b: u8 = <u8>::max_value();
    assert_eq!(hex_binary(b), "0b11111111");
    assert_eq!(hex_binary(b), format!("{:#010b}", b));
}

#[test]
fn byte_six_in_every_base() {
    assert_eq!(hex_octal(0x06), "0o0006");
    assert_eq!(hex_lower_hex(0x06), "0x06");
    assert_eq!(hex_upper_hex(0x06), "0x06");
    assert_eq!(hex_binary(0x06), "0b00000110");
}

#[test]
fn byte_255_in_every_base() {
    assert_eq!(hex_octal(0xff), "0o0377");
    assert_eq!(hex_lower_hex(0xff), "0xff");
    assert_eq!(hex_upper_hex(0xff), "0xFF");
    assert_eq!(hex_binary(0xff), "0b11111111");
}

#[test]
fn every_byte_matches_the_standard_formatter() {
    for b in 0..=255u8 {
        assert_eq!(hex_octal(b), format!("{:#06o}", b));
        assert_eq!(hex_lower_hex(b), format!("{:#04x}", b));
        assert_eq!(hex_upper_hex(b), format!("{:#04X}", b));
        assert_eq!(hex_binary(b), format!("{:#010b}", b));
    }
}

#[test]
fn tokens_have_a_fixed_width() {
    for b in 0..=255u8 {
        assert_eq!(hex_octal(b).len(), 6);
        assert_eq!(hex_lower_hex(b).len(), 4);
        assert_eq!(hex_upper_hex(b).len(), 4);
        assert_eq!(hex_binary(b).len(), 10);
    }
}

#[test]
fn offset_is_padded_to_six_digits() {
    assert_eq!(offset(0), "0x000000");
    assert_eq!(offset(10), "0x00000a");
    assert_eq!(offset(0xabcdef), "0xabcdef");
    assert_eq!(offset(0xffffff), "0xffffff");
}

#[test]
fn offset_grows_past_six_digits() {
    assert_eq!(offset(0x1000000), "0x1000000");
    assert_eq!(offset(u64::MAX), "0xffffffffffffffff");
    for b in [0u64, 1, 15, 16, 65535, 0xffffff, 0x1000000, 0xdead_beef, u64::MAX] {
        assert_eq!(offset(b), format!("{:#08x}", b));
    }
}

#[test]
fn print_offset_appends_label_colon_space() {
    let mut w = String::from("> ");
    print_offset(0x20, &mut w);
    assert_eq!(w, "> 0x000020: ");
}

#[test]
fn sidebar_shows_printable_ascii_only() {
    assert_eq!(ascii_char(65), 'A');
    assert_eq!(ascii_char(9), '.');
    assert_eq!(ascii_char(127), '.');
    assert_eq!(ascii_char(32), ' ');
}

#[test]
fn sidebar_boundaries() {
    assert_eq!(ascii_char(0), '.');
    assert_eq!(ascii_char(31), '.');
    assert_eq!(ascii_char(33), '!');
    assert_eq!(ascii_char(126), '~');
    assert_eq!(ascii_char(128), '.');
    assert_eq!(ascii_char(255), '.');
    for b in 0..=255u8 {
        let expected = if b > 31 && b < 127 { b as char } else { '.' };
        assert_eq!(ascii_char(b), expected);
    }
}

#[test]
fn print_byte_plain() {
    let mut w = String::new();
    print_byte(6, Format::Octal, false, &mut w);
    print_byte(6, Format::LowerHex, false, &mut w);
    print_byte(255, Format::UpperHex, false, &mut w);
    print_byte(6, Format::Binary, false, &mut w);
    assert_eq!(w, "0o0006 0x06 0xFF 0b00000110 ");
}

#[test]
fn print_byte_colored() {
    let mut w = String::new();
    print_byte(6, Format::LowerHex, true, &mut w);
    assert_eq!(w, "\x1b[38;5;6m0x06\x1b[0m ");
    let mut w = String::new();
    print_byte(255, Format::UpperHex, true, &mut w);
    assert_eq!(w, "\x1b[38;5;255m0xFF\x1b[0m ");
    let mut w = String::new();
    print_byte(100, Format::Octal, true, &mut w);
    assert_eq!(w, "\x1b[38;5;100m0o0144\x1b[0m ");
}

#[test]
fn print_byte_colors_zero_as_22() {
    let mut w = String::new();
    print_byte(0, Format::LowerHex, true, &mut w);
    assert_eq!(w, "\x1b[38;5;22m0x00\x1b[0m ");
    let mut w = String::new();
    print_byte(22, Format::LowerHex, true, &mut w);
    assert_eq!(w, "\x1b[38;5;22m0x16\x1b[0m ");
}

#[test]
fn print_byte_colored_matches_ansi_term() {
    for b in 0..=255u8 {
        let color = if b == 0 { 22 } else { b };
        let mut w = String::new();
        print_byte(b, Format::Binary, true, &mut w);
        let expected = format!(
            "{} ",
            ansi_term::Style::new()
                .fg(ansi_term::Color::Fixed(color))
                .paint(format!("{:#010b}", b))
        );
        assert_eq!(w, expected);
        assert_eq!(w, format!("\x1b[38;5;{}m{:#010b}\x1b[0m ", color, b));
    }
}

#[test]
fn print_byte_placeholder_for_the_unknown_format() {
    for colorize in [false, true] {
        let mut w = String::from("x");
        print_byte(7, Format::Unknown, colorize, &mut w);
        assert_eq!(w, "xunk_fmt ");
    }
}

#[test]
fn format_from_flag() {
    assert_eq!(Format::from_flag("o"), Format::Octal);
    assert_eq!(Format::from_flag("x"), Format::LowerHex);
    assert_eq!(Format::from_flag("X"), Format::UpperHex);
    assert_eq!(Format::from_flag("b"), Format::Binary);
}

#[test]
fn format_from_unrecognised_flag_is_unknown() {
    assert_eq!(Format::from_flag(""), Format::Unknown);
    assert_eq!(Format::from_flag("z"), Format::Unknown);
    assert_eq!(Format::from_flag("ox"), Format::Unknown);
    assert_eq!(Format::from_flag("O"), Format::Unknown);
    assert_eq!(Format::from_flag("B"), Format::Unknown);
    assert_eq!(Format::from_flag("p"), Format::Unknown);
    assert_eq!(Format::from_flag("e"), Format::Unknown);
    assert_eq!(Format::from_flag("E"), Format::Unknown);
    assert_eq!(Format::from_flag("\u{e9}"), Format::Unknown);
}

#[test]
fn digits_in_a_base() {
    let mut s = String::new();
    push_padded_digits(&mut s, 255, 16, 2, false);
    assert_eq!(s, "ff");
    let mut s = String::new();
    push_padded_digits(&mut s, 255, 16, 4, true);
    assert_eq!(s, "00FF");
    let mut s = String::new();
    push_padded_digits(&mut s, 0, 2, 0, false);
    assert_eq!(s, "0");
    let mut s = String::new();
    push_padded_digits(&mut s, 5, 2, 1, false);
    assert_eq!(s, "101");
    let mut s = String::from("n=");
    push_padded_digits(&mut s, 4095, 8, 6, false);
    assert_eq!(s, "n=007777");
}

#[test]
fn decimal_digits() {
    for n in [0u64, 7, 10, 99, 100, 65535, 70000, u64::MAX] {
        let mut s = String::new();
        push_decimal(&mut s, n);
        assert_eq!(s, n.to_string());
    }
}

#[test]
fn digit_characters() {
    assert_eq!(digit_to_char(0, false), '0');
    assert_eq!(digit_to_char(9, true), '9');
    assert_eq!(digit_to_char(10, false), 'a');
    assert_eq!(digit_to_char(10, true), 'A');
    assert_eq!(digit_to_char(15, false), 'f');
    assert_eq!(digit_to_char(15, true), 'F');
}
