//! A whole run: the configuration, and the text that it gives for a source.

use crate::error::Error;
use crate::format::{ArrayFormat, Format};
use crate::page::{buf_to_array, consumed_len, least, partition, MAX_PAGE_BYTES};
use crate::render::{array_text, dump_text, render_array, render_dump};
use vstd::prelude::*;

verus! {

/// What a run is to do. It is made once and handed to `run` as a value.
#[derive(Copy, Clone, Debug)]
pub struct Config {
    /// How many bytes a row holds.
    pub column_width: u64,
    /// How many bytes are asked for; `None` asks for the whole source.
    pub length: Option<u64>,
    /// The notation of the bytes of a dump.
    pub format: Format,
    /// Whether the bytes of a dump are coloured.
    pub colorize: bool,
    /// Where set, an array literal in this syntax is written in place of a
    /// dump.
    pub array: Option<ArrayFormat>,
    /// How often the verbosity flag was given.
    pub verbosity: u64,
}

impl Default for Config {
    /// A coloured dump of the whole source in lowercase hexadecimal, ten
    /// bytes to a row.
    fn default() -> (config: Config)
        ensures
            config == (Config {
                column_width: 10,
                length: None,
                format: Format::LowerHex,
                colorize: true,
                array: None,
                verbosity: 0,
            }),
    {
        Config {
            column_width: 10,
            length: None,
            format: Format::LowerHex,
            colorize: true,
            array: None,
            verbosity: 0,
        }
    }
}

impl Config {
    /// How many bytes the configuration asks for, of a source that holds
    /// `available` bytes.
    pub open spec fn requested_len(self, available: nat) -> nat {
        match self.length {
            Some(n) => n as nat,
            None => available,
        }
    }

    /// The most bytes that a run takes from any source: the length asked
    /// for, but no more than `MAX_PAGE_BYTES`.
    pub open spec fn byte_limit(self) -> nat {
        match self.length {
            Some(n) => least(n as nat, MAX_PAGE_BYTES as nat),
            None => MAX_PAGE_BYTES as nat,
        }
    }

    /// The most bytes that a run takes from any source. A caller that reads
    /// a source need not read past this.
    pub fn read_limit(&self) -> (limit: u64)
        ensures
            limit == self.byte_limit(),
    {
        match self.length {
            Some(n) => if n < MAX_PAGE_BYTES {
                n
            } else {
                MAX_PAGE_BYTES
            },
            None => MAX_PAGE_BYTES,
        }
    }
}

/// Whether the colour flag switches colours on: the value 1 does, every
/// other value switches them off.
pub fn colorize_from_flag(value: u8) -> (colorize: bool)
    ensures
        colorize == (value == 1),
{
    value == 1
}

/// What a run says of its verbosity, before anything else.
pub open spec fn verbose_label(level: u64) -> Seq<char> {
    if level == 0 {
        Seq::empty()
    } else if level == 1 {
        "verbose 1"@
    } else if level == 2 {
        "verbose 2"@
    } else {
        "verbose max"@
    }
}

/// The text of a run over `source`: the verbosity label, then the page made
/// from the source, as an array literal where an array format is set and as
/// a dump otherwise.
pub open spec fn run_text(config: Config, source: Seq<u8>) -> Seq<char> {
    let rows = partition(
        source,
        config.requested_len(source.len()),
        config.column_width as nat,
    );
    verbose_label(config.verbosity) + match config.array {
        Some(format) => array_text(rows, format),
        None => dump_text(rows, 0, config.format, config.colorize, config.column_width as nat),
    }
}

/// In most hex editor applications, the data of the computer file is
/// represented as hexadecimal values grouped in 4 groups of 4 bytes
/// (or two groups of 8 bytes), followed by one group of 16 printable ASCII
/// characters which correspond to each pair of hex values (each byte).
/// Non-printable ASCII characters (e.g., Bell) and characters that would take
/// more than one character space (e.g., tab) are typically represented by a
/// dot (".") in the following ASCII field.
///
/// Makes the page of `source` under `config` and renders it. A column width
/// of zero is refused, and nothing else is.
///
/// # Arguments
///
/// * `config` - What was asked for.
/// * `source` - The bytes of the input.
pub fn run(config: &Config, source: &[u8]) -> (result: Result<String, Error>)
    ensures
        result is Err <==> config.column_width == 0,
        result matches Err(e) ==> e is InvalidConfiguration,
        result matches Ok(out) ==> out@ == run_text(*config, source@),
{
    let buf_len: u64 = match config.length {
        Some(n) => n,
        None => source.len() as u64,
    };
    let page = match buf_to_array(source, buf_len, config.column_width) {
        Ok(page) => page,
        Err(e) => {
            return Err(e);
        },
    };
    let mut out = String::new();
    if config.verbosity == 1 {
        out.append("verbose 1");
    } else if config.verbosity == 2 {
        out.append("verbose 2");
    } else if config.verbosity > 2 {
        out.append("verbose max");
    }
    let body = match config.array {
        Some(format) => render_array(&page, format),
        None => render_dump(&page, config.format, config.colorize, config.column_width),
    };
    out.append(body.as_str());
    Ok(out)
}

/// Runs on what reading the source gave. A failed read ends the run with the
/// error of the read, and no text is made of what was read before it. A
/// read that succeeded is run on as `run` does.
///
/// # Arguments
///
/// * `config` - What was asked for.
/// * `read` - The bytes of the input, or the error that ended the reading.
pub fn run_read(config: &Config, read: Result<Vec<u8>, std::io::Error>) -> (result: Result<
    String,
    Error,
>)
    ensures
        match read {
            Err(e) => result == Err::<String, Error>(Error::Io(e)),
            Ok(source) => {
                &&& result is Err <==> config.column_width == 0
                &&& result matches Err(e) ==> e is InvalidConfiguration
                &&& result matches Ok(out) ==> out@ == run_text(*config, source@)
            },
        },
{
    match read {
        Err(e) => Err(Error::from(e)),
        Ok(source) => run(config, source.as_slice()),
    }
}

/// A run takes the bytes of the source up to its limit, or all of them where
/// the source holds fewer.
pub proof fn lemma_run_takes_up_to_limit(config: Config, available: nat)
    ensures
        consumed_len(available, config.requested_len(available)) == least(
            available,
            config.byte_limit(),
        ),
{
}

/// A run reads no further than its limit: the bytes of the source past the
/// first `limit` change nothing in its text, where `limit` is at least the
/// run's byte limit.
pub proof fn lemma_run_reads_prefix(config: Config, source: Seq<u8>, limit: nat)
    requires
        config.byte_limit() <= limit <= source.len(),
    ensures
        run_text(config, source.take(limit as int)) == run_text(config, source),
{
    let head = source.take(limit as int);
    let taken = consumed_len(source.len(), config.requested_len(source.len()));
    assert(head.take(taken as int) =~= source.take(taken as int));
}

} // verus!
