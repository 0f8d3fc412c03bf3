//! The per-byte codec: one byte as a fixed-width token in a numeric base, as
//! a coloured cell of a dump row, and as a character of the ASCII sidebar.

use crate::format::Format;
use crate::text::{decimal, lemma_padded_digits_min_len, padded_digits, push_padded_digits};
use vstd::prelude::*;

verus! {

/// `0o` and four octal digits.
pub open spec fn octal_token(b: u8) -> Seq<char> {
    "0o"@ + padded_digits(b as nat, 8, 4, false)
}

/// `0x` and two lowercase hexadecimal digits.
pub open spec fn lower_hex_token(b: u8) -> Seq<char> {
    "0x"@ + padded_digits(b as nat, 16, 2, false)
}

/// `0x` and two uppercase hexadecimal digits.
pub open spec fn upper_hex_token(b: u8) -> Seq<char> {
    "0x"@ + padded_digits(b as nat, 16, 2, true)
}

/// `0b` and eight binary digits.
pub open spec fn binary_token(b: u8) -> Seq<char> {
    "0b"@ + padded_digits(b as nat, 2, 8, false)
}

/// `0x` and the lowercase hexadecimal digits of `b`, zero-padded to six
/// digits; more digits where `b` needs them.
pub open spec fn offset_label(b: nat) -> Seq<char> {
    "0x"@ + padded_digits(b, 16, 6, false)
}

/// The token of a byte in a format: the byte in the notation of the format,
/// or the placeholder `unk_fmt` under the unknown format.
pub open spec fn byte_token(b: u8, format: Format) -> Seq<char> {
    match format {
        Format::Octal => octal_token(b),
        Format::LowerHex => lower_hex_token(b),
        Format::UpperHex => upper_hex_token(b),
        Format::Binary => binary_token(b),
        Format::Unknown => "unk_fmt"@,
    }
}

/// The colour in which a byte is shown: its own value, but 22 for the byte
/// zero, whose own colour would not show.
pub open spec fn color_index(b: u8) -> u8 {
    if b == 0 {
        22
    } else {
        b
    }
}

/// `text` between the escape sequence that selects the foreground colour
/// `color` of the 256-colour palette and the one that resets all styles.
pub open spec fn painted(color: u8, text: Seq<char>) -> Seq<char> {
    "\x1b[38;5;"@ + decimal(color as nat) + "m"@ + text + "\x1b[0m"@
}

/// One byte as it stands in a dump row: its token, coloured by the byte's
/// value where `colorize` is set, and a space. The placeholder of the
/// unknown format is never coloured.
pub open spec fn byte_cell(b: u8, format: Format, colorize: bool) -> Seq<char> {
    if colorize && format != Format::Unknown {
        painted(color_index(b), byte_token(b, format)) + " "@
    } else {
        byte_token(b, format) + " "@
    }
}

/// The character that stands for a byte in the ASCII sidebar: the byte's own
/// character where its value is above 31 and below 127, a dot otherwise.
pub open spec fn sidebar_char(b: u8) -> char {
    if 31 < b && b < 127 {
        b as char
    } else {
        '.'
    }
}

/// The ASCII sidebar of a row: the sidebar character of each byte, in order.
pub open spec fn sidebar(row: Seq<u8>) -> Seq<char> {
    row.map_values(|b: u8| sidebar_char(b))
}

/// Every token has the width of its notation, whatever the byte: six
/// characters in octal, four in hexadecimal, ten in binary.
pub proof fn lemma_token_widths(b: u8)
    ensures
        octal_token(b).len() == 6,
        lower_hex_token(b).len() == 4,
        upper_hex_token(b).len() == 4,
        binary_token(b).len() == 10,
{
    reveal_strlit("0o");
    reveal_strlit("0x");
    reveal_strlit("0b");
    reveal_with_fuel(padded_digits, 9);
}

/// An offset label has at least eight characters: the `0x` and six digits.
pub proof fn lemma_offset_label_width(b: nat)
    ensures
        offset_label(b).len() >= 8,
{
    reveal_strlit("0x");
    lemma_padded_digits_min_len(b, 16, 6, false);
}

/// offset column
///
/// # Arguments
///
/// * `b` - offset value.
pub fn offset(b: u64) -> (s: String)
    ensures
        s@ == offset_label(b as nat),
{
    let mut s = String::from_str("0x");
    push_padded_digits(&mut s, b, 16, 6, false);
    s
}

/// Appends the offset column of a dump row to `w`: the offset label, a colon
/// and a space.
pub fn print_offset(b: u64, w: &mut String)
    ensures
        final(w)@ == old(w)@ + offset_label(b as nat) + ": "@,
{
    let label = offset(b);
    w.append(label.as_str());
    w.append(": ");
}

/// hex octal, takes u8
pub fn hex_octal(b: u8) -> (s: String)
    ensures
        s@ == octal_token(b),
{
    let mut s = String::from_str("0o");
    push_padded_digits(&mut s, b as u64, 8, 4, false);
    s
}

/// hex lower hex, takes u8
pub fn hex_lower_hex(b: u8) -> (s: String)
    ensures
        s@ == lower_hex_token(b),
{
    let mut s = String::from_str("0x");
    push_padded_digits(&mut s, b as u64, 16, 2, false);
    s
}

/// hex upper hex, takes u8
pub fn hex_upper_hex(b: u8) -> (s: String)
    ensures
        s@ == upper_hex_token(b),
{
    let mut s = String::from_str("0x");
    push_padded_digits(&mut s, b as u64, 16, 2, true);
    s
}

/// hex binary, takes u8
pub fn hex_binary(b: u8) -> (s: String)
    ensures
        s@ == binary_token(b),
{
    let mut s = String::from_str("0b");
    push_padded_digits(&mut s, b as u64, 2, 8, false);
    s
}

/// Paints `text` with `ansi_term`: `Style::new().fg(Color::Fixed(color))` is
/// the style, `Style::paint` joins it to the text, and `to_string` writes the
/// result out. The contract is not proved. It states what `ansi_term` writes
/// for a style whose one property is a fixed foreground colour: `ESC [ 38;5;`
/// and the colour number in decimal, then `m`, the text as it is, and the
/// reset sequence `ESC [ 0 m`.
#[verifier::external_body]
fn paint_fixed(color: u8, text: &str) -> (colored: String)
    ensures
        colored@ == painted(color, text@),
{
    ansi_term::Style::new().fg(ansi_term::Color::Fixed(color)).paint(text).to_string()
}

/// The character of a byte in the ASCII sidebar.
pub fn ascii_char(b: u8) -> (c: char)
    ensures
        c == sidebar_char(b),
{
    if b > 31 && b < 127 {
        b as char
    } else {
        '.'
    }
}

/// Appends one byte to `w` as a cell of a dump row: the byte's token in
/// `format`, in the byte's colour where `colorize` is set, and a space.
pub fn print_byte(b: u8, format: Format, colorize: bool, w: &mut String)
    ensures
        final(w)@ == old(w)@ + byte_cell(b, format, colorize),
{
    let (token, known) = match format {
        Format::Octal => (hex_octal(b), true),
        Format::LowerHex => (hex_lower_hex(b), true),
        Format::UpperHex => (hex_upper_hex(b), true),
        Format::Binary => (hex_binary(b), true),
        Format::Unknown => (String::from_str("unk_fmt"), false),
    };
    if colorize && known {
        let color: u8 = if b < 1 {
            0x16
        } else {
            b
        };
        let colored = paint_fixed(color, token.as_str());
        w.append(colored.as_str());
    } else {
        w.append(token.as_str());
    }
    w.append(" ");
}

} // verus!
