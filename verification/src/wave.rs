//! The layout of a function wave: a list of samples, ten to a line.

use vstd::prelude::*;

verus! {

/// What follows the sample at `index` in the text of a function wave: a
/// comma, and a line break as well after every tenth sample.
pub open spec fn sample_separator(index: u64) -> Seq<char> {
    if index % 10 == 9 {
        ",\n"@
    } else {
        ","@
    }
}

/// What is written after the sample at `index`, counted from zero.
pub fn wave_separator(index: u64) -> (separator: &'static str)
    ensures
        separator@ == sample_separator(index),
{
    if index % 10 == 9 {
        ",\n"
    } else {
        ","
    }
}

} // verus!
