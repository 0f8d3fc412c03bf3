//! The renderers: a page as a hex dump with an ASCII sidebar, or as an array
//! literal in the syntax of a programming language.

use crate::codec::{
    ascii_char, byte_cell, hex_lower_hex, lower_hex_token, offset_label, print_byte, print_offset,
    sidebar, sidebar_char,
};
use crate::format::{ArrayFormat, Format};
use crate::page::{total_len, Page};
use crate::text::{decimal, push_decimal};
use vstd::prelude::*;

verus! {

/// `n` spaces.
pub open spec fn spaces(n: nat) -> Seq<char> {
    Seq::new(n, |i: int| ' ')
}

/// The cells of the bytes of a row, one after the other.
pub open spec fn row_cells(row: Seq<u8>, format: Format, colorize: bool) -> Seq<char>
    decreases row.len(),
{
    if row.len() == 0 {
        Seq::empty()
    } else {
        row_cells(row.drop_last(), format, colorize) + byte_cell(row.last(), format, colorize)
    }
}

/// What keeps the sidebar of a short row in line with the others: five
/// spaces for each column that the row lacks.
pub open spec fn row_padding(row_len: nat, width: nat) -> Seq<char> {
    if row_len < width {
        spaces((5 * (width - row_len)) as nat)
    } else {
        Seq::empty()
    }
}

/// One line of a dump: the offset column, the cells of the row, the padding
/// of a short row, the ASCII sidebar and a line break.
pub open spec fn dump_row(
    offset: nat,
    row: Seq<u8>,
    format: Format,
    colorize: bool,
    width: nat,
) -> Seq<char> {
    offset_label(offset) + ": "@ + row_cells(row, format, colorize) + row_padding(row.len(), width)
        + sidebar(row) + "\n"@
}

/// The lines of a dump: one for each row, each under the offset that the
/// rows before it leave, counted from `origin`.
pub open spec fn dump_rows(
    rows: Seq<Seq<u8>>,
    origin: nat,
    format: Format,
    colorize: bool,
    width: nat,
) -> Seq<char>
    decreases rows.len(),
{
    if rows.len() == 0 {
        Seq::empty()
    } else {
        dump_rows(rows.drop_last(), origin, format, colorize, width) + dump_row(
            origin + total_len(rows.drop_last()),
            rows.last(),
            format,
            colorize,
            width,
        )
    }
}

/// A dump: its lines, and a last line that gives the number of bytes.
pub open spec fn dump_text(
    rows: Seq<Seq<u8>>,
    origin: nat,
    format: Format,
    colorize: bool,
    width: nat,
) -> Seq<char> {
    dump_rows(rows, origin, format, colorize, width) + "   bytes: "@ + decimal(total_len(rows))
        + "\n"@
}

/// Appends the cells of the bytes of `row` to `out`.
fn push_row_cells(out: &mut String, row: &Vec<u8>, format: Format, colorize: bool)
    ensures
        final(out)@ == old(out)@ + row_cells(row@, format, colorize),
{
    let mut c: usize = 0;
    while c < row.len()
        invariant
            c <= row.len(),
            out@ == old(out)@ + row_cells(row@.take(c as int), format, colorize),
        decreases row.len() - c,
    {
        proof {
            assert(row@.take(c + 1).drop_last() =~= row@.take(c as int));
        }
        print_byte(row[c], format, colorize, out);
        c = c + 1;
    }
    assert(row@.take(c as int) =~= row@);
}

/// Appends the padding of a row of `row_len` bytes to `out`.
fn push_row_padding(out: &mut String, row_len: u64, column_width: u64)
    ensures
        final(out)@ == old(out)@ + row_padding(row_len as nat, column_width as nat),
{
    if row_len < column_width {
        let missing: u64 = column_width - row_len;
        let mut done: u64 = 0;
        while done < missing
            invariant
                done <= missing,
                out@ == old(out)@ + spaces((5 * done) as nat),
            decreases missing - done,
        {
            proof {
                reveal_strlit("     ");
            }
            out.append("     ");
            done = done + 1;
        }
    }
}

/// Appends the ASCII sidebar of `row` to `out`.
fn push_sidebar(out: &mut String, row: &Vec<u8>)
    ensures
        final(out)@ == old(out)@ + sidebar(row@),
{
    let mut c: usize = 0;
    while c < row.len()
        invariant
            c <= row.len(),
            out@ == old(out)@ + sidebar(row@.take(c as int)),
        decreases row.len() - c,
    {
        proof {
            assert(sidebar(row@.take(c + 1)) =~= sidebar(row@.take(c as int)).push(
                sidebar_char(row@[c as int]),
            ));
        }
        out.push(ascii_char(row[c]));
        c = c + 1;
    }
}

/// Appends one line of a dump to `out`.
fn push_dump_row(
    out: &mut String,
    offset: u64,
    row: &Vec<u8>,
    format: Format,
    colorize: bool,
    column_width: u64,
)
    ensures
        final(out)@ == old(out)@ + dump_row(
            offset as nat,
            row@,
            format,
            colorize,
            column_width as nat,
        ),
{
    print_offset(offset, out);
    push_row_cells(out, row, format, colorize);
    push_row_padding(out, row.len() as u64, column_width);
    push_sidebar(out, row);
    out.append("\n");
}

/// Renders a page as a hex dump: one line for each row, with the offset of
/// the row, its bytes in `format` and its ASCII sidebar, and after the rows a
/// line that gives the number of bytes of the page.
pub fn render_dump(page: &Page, format: Format, colorize: bool, column_width: u64) -> (out: String)
    requires
        page.wf(),
    ensures
        out@ == dump_text(page@, page.offset as nat, format, colorize, column_width as nat),
{
    let mut out = String::new();
    let mut r: usize = 0;
    while r < page.body.len()
        invariant
            page.wf(),
            r <= page.body.len(),
            out@ == dump_rows(
                page@.take(r as int),
                page.offset as nat,
                format,
                colorize,
                column_width as nat,
            ),
        decreases page.body.len() - r,
    {
        proof {
            assert(page@.take(r + 1).drop_last() =~= page@.take(r as int));
        }
        let line = &page.body[r];
        push_dump_row(&mut out, line.offset, &line.hex_body, format, colorize, column_width);
        r = r + 1;
    }
    assert(page@.take(r as int) =~= page@);
    out.append("   bytes: ");
    push_decimal(&mut out, page.bytes);
    out.append("\n");
    out
}

/// The first line of an array literal of `total` bytes.
pub open spec fn array_header(format: ArrayFormat, total: nat) -> Seq<char> {
    match format {
        ArrayFormat::Rust => "let ARRAY: [u8; "@ + decimal(total) + "] = [\n"@,
        ArrayFormat::C => "unsigned char ARRAY["@ + decimal(total) + "] = {\n"@,
        ArrayFormat::Go => "a := ["@ + decimal(total) + "]byte{\n"@,
        ArrayFormat::Unknown => Seq::empty(),
    }
}

/// The last line of an array literal.
pub open spec fn array_footer(format: ArrayFormat) -> Seq<char> {
    match format {
        ArrayFormat::Rust => "];\n"@,
        ArrayFormat::C => "};\n"@,
        ArrayFormat::Go => "}\n"@,
        ArrayFormat::Unknown => Seq::empty(),
    }
}

/// Whether the last byte of an array literal is followed by a comma, as
/// every other byte is.
pub open spec fn has_trailing_comma(format: ArrayFormat) -> bool {
    format == ArrayFormat::Go
}

/// The bytes of a row as items of an array literal: each byte as a lowercase
/// hexadecimal token, followed by a comma and a space. Where `closes` is
/// set, nothing follows the last byte.
pub open spec fn array_items(row: Seq<u8>, closes: bool) -> Seq<char>
    decreases row.len(),
{
    if row.len() == 0 {
        Seq::empty()
    } else {
        array_items(row.drop_last(), false) + lower_hex_token(row.last()) + if closes {
            Seq::empty()
        } else {
            ", "@
        }
    }
}

/// One line of the body of an array literal: four spaces, the items of the
/// row and a line break.
pub open spec fn array_row(row: Seq<u8>, closes: bool) -> Seq<char> {
    "    "@ + array_items(row, closes) + "\n"@
}

/// The body of an array literal: one line for each row. Where `closes` is
/// set, nothing follows the last byte of the last row.
pub open spec fn array_rows(rows: Seq<Seq<u8>>, closes: bool) -> Seq<char>
    decreases rows.len(),
{
    if rows.len() == 0 {
        Seq::empty()
    } else {
        array_rows(rows.drop_last(), false) + array_row(rows.last(), closes)
    }
}

/// An array literal that holds the bytes of the rows: a header that gives
/// the number of bytes, the rows and a footer. An unknown format gives the
/// one line `unknown array format` in place of all three.
pub open spec fn array_text(rows: Seq<Seq<u8>>, format: ArrayFormat) -> Seq<char> {
    if format == ArrayFormat::Unknown {
        "unknown array format\n"@
    } else {
        array_header(format, total_len(rows)) + array_rows(rows, !has_trailing_comma(format))
            + array_footer(format)
    }
}

/// Appends one line of the body of an array literal to `out`.
fn push_array_row(out: &mut String, row: &Vec<u8>, closes: bool)
    ensures
        final(out)@ == old(out)@ + array_row(row@, closes),
{
    out.append("    ");
    let mut c: usize = 0;
    while c < row.len()
        invariant
            c <= row.len(),
            c < row.len() ==> out@ == old(out)@ + "    "@ + array_items(row@.take(c as int), false),
            c == row.len() ==> out@ == old(out)@ + "    "@ + array_items(row@, closes),
        decreases row.len() - c,
    {
        proof {
            assert(row@.take(c + 1).drop_last() =~= row@.take(c as int));
        }
        let token = hex_lower_hex(row[c]);
        out.append(token.as_str());
        c = c + 1;
        if !(closes && c == row.len()) {
            out.append(", ");
        }
    }
    out.append("\n");
}

/// Renders a page as an array literal in the syntax that `format` selects:
/// a header that gives the number of bytes of the page, the bytes as
/// lowercase hexadecimal tokens, one row to a line, and a closing line. In
/// the Rust and C syntaxes no comma follows the last byte.
///
/// An unknown format is no error, and no literal is written for it: the
/// text is the one line `unknown array format`.
pub fn render_array(page: &Page, format: ArrayFormat) -> (out: String)
    requires
        page.wf(),
    ensures
        out@ == array_text(page@, format),
{
    let mut out = String::new();
    match format {
        ArrayFormat::Rust => {
            out.append("let ARRAY: [u8; ");
            push_decimal(&mut out, page.bytes);
            out.append("] = [\n");
        },
        ArrayFormat::C => {
            out.append("unsigned char ARRAY[");
            push_decimal(&mut out, page.bytes);
            out.append("] = {\n");
        },
        ArrayFormat::Go => {
            out.append("a := [");
            push_decimal(&mut out, page.bytes);
            out.append("]byte{\n");
        },
        ArrayFormat::Unknown => {
            out.append("unknown array format\n");
            return out;
        },
    }
    let closes = match format {
        ArrayFormat::Go => false,
        _ => true,
    };
    let ghost header = out@;
    let mut r: usize = 0;
    while r < page.body.len()
        invariant
            r <= page.body.len(),
            r < page.body.len() ==> out@ == header + array_rows(page@.take(r as int), false),
            r == page.body.len() ==> out@ == header + array_rows(page@, closes),
        decreases page.body.len() - r,
    {
        proof {
            assert(page@.take(r + 1).drop_last() =~= page@.take(r as int));
        }
        let last = r + 1 == page.body.len();
        push_array_row(&mut out, &page.body[r].hex_body, closes && last);
        r = r + 1;
    }
    match format {
        ArrayFormat::Rust => {
            out.append("];\n");
        },
        ArrayFormat::C => {
            out.append("};\n");
        },
        _ => {
            out.append("}\n");
        },
    }
    out
}

} // verus!
