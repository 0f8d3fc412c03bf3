//! The selections a caller makes: the numeric base of the dump and the
//! language of the array literal.

use vstd::prelude::*;

verus! {

/// The notation in which a byte is written.
///
/// `Unknown` is a selection like the others: it is what an unrecognised flag
/// selects, and bytes are rendered as a placeholder under it.
#[derive(Copy, Clone, Debug, PartialEq, Eq, Structural)]
pub enum Format {
    /// octal format
    Octal,
    /// lower hex format
    LowerHex,
    /// upper hex format
    UpperHex,
    /// binary format
    Binary,
    /// unknown format
    Unknown,
}

impl Format {
    /// The format that a flag selects: `o`, `x`, `X` or `b`; anything else
    /// selects `Unknown`.
    pub open spec fn of_flag(flag: Seq<char>) -> Format {
        if flag == seq!['o'] {
            Format::Octal
        } else if flag == seq!['x'] {
            Format::LowerHex
        } else if flag == seq!['X'] {
            Format::UpperHex
        } else if flag == seq!['b'] {
            Format::Binary
        } else {
            Format::Unknown
        }
    }

    /// Reads a format flag. An unrecognised flag is no error: it selects
    /// `Unknown`.
    pub fn from_flag(flag: &str) -> (format: Format)
        ensures
            format == Format::of_flag(flag@),
    {
        if flag.unicode_len() != 1 {
            return Format::Unknown;
        }
        let c = flag.get_char(0);
        assert(flag@ =~= seq![c]);
        if c == 'o' {
            Format::Octal
        } else if c == 'x' {
            Format::LowerHex
        } else if c == 'X' {
            Format::UpperHex
        } else if c == 'b' {
            Format::Binary
        } else {
            Format::Unknown
        }
    }
}

/// The language in whose syntax an array literal is written.
#[derive(Copy, Clone, Debug, PartialEq, Eq, Structural)]
pub enum ArrayFormat {
    /// a Rust array
    Rust,
    /// a C array
    C,
    /// a Go slice literal
    Go,
    /// none of the above
    Unknown,
}

impl ArrayFormat {
    /// The array format that a flag selects: `r`, `c` or `g`; anything else
    /// selects `Unknown`.
    pub open spec fn of_flag(flag: Seq<char>) -> ArrayFormat {
        if flag == seq!['r'] {
            ArrayFormat::Rust
        } else if flag == seq!['c'] {
            ArrayFormat::C
        } else if flag == seq!['g'] {
            ArrayFormat::Go
        } else {
            ArrayFormat::Unknown
        }
    }

    /// Reads an array format flag. An unrecognised flag is no error: it
    /// selects `Unknown`.
    pub fn from_flag(flag: &str) -> (format: ArrayFormat)
        ensures
            format == ArrayFormat::of_flag(flag@),
    {
        if flag.unicode_len() != 1 {
            return ArrayFormat::Unknown;
        }
        let c = flag.get_char(0);
        assert(flag@ =~= seq![c]);
        if c == 'r' {
            ArrayFormat::Rust
        } else if c == 'c' {
            ArrayFormat::C
        } else if c == 'g' {
            ArrayFormat::Go
        } else {
            ArrayFormat::Unknown
        }
    }
}

} // verus!
