//! The paginator: a byte stream, cut off at a byte limit, becomes a page of
//! rows of equal width, the last of which may be shorter.

use crate::codec::{ascii_char, sidebar, sidebar_char};
use crate::error::Error;
use vstd::arithmetic::div_mod::lemma_fundamental_div_mod_converse;
use vstd::prelude::*;

verus! {

/// No page holds more bytes than this, whatever length is asked for.
pub const MAX_PAGE_BYTES: u64 = 65535;

/// Line structure for hex output
#[derive(Clone, Debug)]
pub struct Line {
    /// offset
    pub offset: u64,
    /// hex body
    pub hex_body: Vec<u8>,
    /// ascii text
    pub ascii: Vec<char>,
    /// total bytes in Line
    pub bytes: u64,
}

impl View for Line {
    type V = Seq<u8>;

    /// A line stands for the bytes it holds.
    open spec fn view(&self) -> Seq<u8> {
        self.hex_body@
    }
}

/// Line implementation
impl Line {
    /// The byte count and the ASCII text agree with the bytes of the line.
    pub open spec fn wf(&self) -> bool {
        &&& self.bytes == self.hex_body@.len()
        &&& self.ascii@ == sidebar(self.hex_body@)
    }

    /// Line constructor
    pub fn new() -> (line: Line)
        ensures
            line.wf(),
            line@ == Seq::<u8>::empty(),
            line.ascii@ == Seq::<char>::empty(),
            line.offset == 0,
            line.bytes == 0,
    {
        let line = Line { offset: 0x0, hex_body: Vec::new(), ascii: Vec::new(), bytes: 0x0 };
        assert(line.ascii@ =~= sidebar(line.hex_body@));
        line
    }
}

/// Page structure
#[derive(Clone, Debug)]
pub struct Page {
    /// page offset
    pub offset: u64,
    /// page body
    pub body: Vec<Line>,
    /// total bytes in page
    pub bytes: u64,
}

impl View for Page {
    type V = Seq<Seq<u8>>;

    /// A page stands for its rows, each row for its bytes.
    open spec fn view(&self) -> Seq<Seq<u8>> {
        self.body@.map_values(|line: Line| line@)
    }
}

/// Page implementation
impl Page {
    /// Every line is well formed and starts at the offset that the lines
    /// before it leave, and the page's byte count is the sum of the lines'.
    pub open spec fn wf(&self) -> bool {
        &&& self.bytes == total_len(self@)
        &&& forall|i: int|
            0 <= i < self.body.len() ==> (#[trigger] self.body[i]).wf() && self.body[i].offset
                == self.offset + total_len(self@.take(i))
    }

    /// Page constructor
    pub fn new() -> (page: Page)
        ensures
            page.wf(),
            page@ == Seq::<Seq<u8>>::empty(),
            page.offset == 0,
            page.bytes == 0,
    {
        let page = Page { offset: 0x0, body: Vec::new(), bytes: 0x0 };
        page
    }
}

/// The sum of the byte counts of the rows.
pub open spec fn total_len(rows: Seq<Seq<u8>>) -> nat
    decreases rows.len(),
{
    if rows.len() == 0 {
        0
    } else {
        total_len(rows.drop_last()) + rows.last().len()
    }
}

/// How many bytes are taken from a source that holds `available` bytes when
/// `requested` bytes are asked for: the least of the two and of the ceiling
/// of 65535 bytes.
pub open spec fn consumed_len(available: nat, requested: nat) -> nat {
    least(least(available, requested), MAX_PAGE_BYTES as nat)
}

/// The lesser of two numbers.
pub open spec fn least(a: nat, b: nat) -> nat {
    if a <= b {
        a
    } else {
        b
    }
}

/// How many rows of `width` bytes it takes to hold `n` bytes: `n / width`
/// rounded up.
pub open spec fn row_count(n: nat, width: nat) -> nat {
    if n % width == 0 {
        n / width
    } else {
        n / width + 1
    }
}

/// Row `i` of `s` cut into rows of `width` bytes: the bytes from `i * width`
/// up to `(i + 1) * width`, or up to the end of `s` where that comes first.
pub open spec fn chunk(s: Seq<u8>, width: nat, i: int) -> Seq<u8> {
    s.subrange(
        i * width,
        if (i + 1) * width <= s.len() {
            (i + 1) * width
        } else {
            s.len() as int
        },
    )
}

/// `s` cut into rows of `width` bytes.
pub open spec fn chunks(s: Seq<u8>, width: nat) -> Seq<Seq<u8>> {
    Seq::new(row_count(s.len(), width), |i: int| chunk(s, width, i))
}

/// The rows of the page made from `source` when `requested` bytes are asked
/// for, in rows of `width` bytes.
pub open spec fn partition(source: Seq<u8>, requested: nat, width: nat) -> Seq<Seq<u8>> {
    chunks(source.take(consumed_len(source.len(), requested) as int), width)
}

/// `line` is row `r` of a page of full rows of `width` bytes over `s`.
spec fn is_full_row(line: Line, s: Seq<u8>, width: nat, r: int) -> bool {
    &&& line.wf()
    &&& line.offset == r * width
    &&& line@ == s.subrange(r * width, r * width + width)
}

/// How many of `n` bytes the first `j` rows of `width` bytes hold: `j * width`
/// bytes, or all `n` where there are fewer.
spec fn rows_span(j: nat, width: nat, n: nat) -> nat {
    if j * width <= n {
        j * width
    } else {
        n
    }
}

/// `k` full rows and `c` more bytes, fewer than a row, take `k` rows, and one
/// more if `c` is not zero.
proof fn lemma_row_count(k: nat, c: nat, width: nat)
    requires
        c < width,
    ensures
        row_count(k * width + c, width) == k + if c > 0 { 1nat } else { 0nat },
        (k * width + c) / width == k,
        (k * width + c) % width == c,
{
    lemma_fundamental_div_mod_converse((k * width + c) as int, width as int, k as int, c as int);
}

/// Where the rows of `n` bytes begin and end: every row begins inside the
/// bytes, every row but the last is full, and the last row ends the bytes.
proof fn lemma_row_bounds(n: nat, width: nat, i: int)
    requires
        width > 0,
        0 <= i < row_count(n, width),
    ensures
        i * width < n,
        i < row_count(n, width) - 1 ==> (i + 1) * width <= n,
        i == row_count(n, width) - 1 ==> n <= (i + 1) * width,
{
    let q = n / width;
    let r = n % width;
    assert(n == q * width + r && 0 <= r < width) by (nonlinear_arith)
        requires
            width > 0,
            q == n / width,
            r == n % width,
    ;
    if r == 0 {
        assert((i + 1) * width <= q * width) by (nonlinear_arith)
            requires
                i + 1 <= q,
                width > 0,
        ;
        assert(i * width < (i + 1) * width) by (nonlinear_arith)
            requires
                width > 0,
        ;
    } else {
        assert(i * width <= q * width) by (nonlinear_arith)
            requires
                i <= q,
                width > 0,
        ;
        if i < q {
            assert((i + 1) * width <= q * width) by (nonlinear_arith)
                requires
                    i + 1 <= q,
                    width > 0,
            ;
        } else {
            assert((i + 1) * width == q * width + width) by (nonlinear_arith)
                requires
                    i == q,
            ;
        }
    }
}

/// All the rows of `n` bytes together hold the `n` bytes.
proof fn lemma_rows_span_all(n: nat, width: nat)
    requires
        width > 0,
    ensures
        rows_span(row_count(n, width), width, n) == n,
{
    let rows = row_count(n, width);
    if rows == 0 {
        assert(n == width * (n / width) + n % width) by (nonlinear_arith)
            requires
                width > 0,
        ;
        assert(width * 0 == 0) by (nonlinear_arith);
        assert(0 * width == 0) by (nonlinear_arith);
    } else {
        let i = rows - 1;
        lemma_row_bounds(n, width, i);
    }
}

/// The first `j` rows of `s` hold the first `j * width` bytes of `s`, or all
/// of `s` where it is shorter.
proof fn lemma_chunks_prefix_len(s: Seq<u8>, width: nat, j: nat)
    requires
        width > 0,
        j <= row_count(s.len(), width),
    ensures
        total_len(chunks(s, width).take(j as int)) == rows_span(j, width, s.len()),
    decreases j,
{
    let rows = chunks(s, width);
    if j == 0 {
        assert(0 * width == 0) by (nonlinear_arith);
    } else {
        let i = (j - 1) as nat;
        lemma_chunks_prefix_len(s, width, i);
        lemma_row_bounds(s.len(), width, i as int);
        assert(rows.take(j as int).drop_last() =~= rows.take(i as int));
        assert((i + 1) * width == i * width + width) by (nonlinear_arith);
    }
}

/// The first `j` rows of `s`, laid end to end, are the first `j * width` bytes
/// of `s`, or all of `s` where it is shorter.
proof fn lemma_chunks_prefix_flatten(s: Seq<u8>, width: nat, j: nat)
    requires
        width > 0,
        j <= row_count(s.len(), width),
    ensures
        chunks(s, width).take(j as int).flatten() == s.take(rows_span(j, width, s.len()) as int),
    decreases j,
{
    let rows = chunks(s, width);
    if j == 0 {
        assert(0 * width == 0) by (nonlinear_arith);
    } else {
        let i = (j - 1) as nat;
        lemma_chunks_prefix_flatten(s, width, i);
        lemma_row_bounds(s.len(), width, i as int);
        assert(rows.take(j as int) =~= rows.take(i as int).push(chunk(s, width, i as int)));
        rows.take(i as int).lemma_flatten_push(chunk(s, width, i as int));
        assert((i + 1) * width == i * width + width) by (nonlinear_arith);
        assert(s.take((i * width) as int) + chunk(s, width, i as int) =~= s.take(
            rows_span(j, width, s.len()) as int,
        ));
    }
}

/// The shape of a page: every row but the last holds exactly `width` bytes,
/// and the last row holds at least one byte and at most `width`.
pub open spec fn is_grid(rows: Seq<Seq<u8>>, width: nat) -> bool {
    &&& forall|i: int| 0 <= i < rows.len() - 1 ==> (#[trigger] rows[i]).len() == width
    &&& rows.len() > 0 ==> 1 <= rows.last().len() <= width
}

/// A page has as many rows as its bytes need: the number of bytes taken from
/// the source, divided by the width and rounded up. The byte counts of the
/// rows sum to the number of bytes taken, which is the least of the source's
/// length, the requested length and 65535. Laid end to end, the rows are the
/// bytes taken, in the order of the source.
pub proof fn lemma_partition_counts(source: Seq<u8>, requested: nat, width: nat)
    requires
        width >= 1,
    ensures
        partition(source, requested, width).len() == row_count(
            consumed_len(source.len(), requested),
            width,
        ),
        total_len(partition(source, requested, width)) == consumed_len(source.len(), requested),
        partition(source, requested, width).flatten() == source.take(
            consumed_len(source.len(), requested) as int,
        ),
{
    let taken = source.take(consumed_len(source.len(), requested) as int);
    let rows = chunks(taken, width);
    lemma_chunks_prefix_len(taken, width, rows.len());
    lemma_chunks_prefix_flatten(taken, width, rows.len());
    assert(rows.take(rows.len() as int) =~= rows);
    lemma_rows_span_all(taken.len(), width);
}

/// A source of `n` bytes gives `n / width` rows, rounded up, wherever the
/// byte limit cuts off no more than would have fitted into the last row.
/// (Where it cuts off more, the page has fewer rows than that.)
pub proof fn lemma_partition_row_count(source: Seq<u8>, requested: nat, width: nat)
    requires
        width >= 1,
        source.len() <= partition(source, requested, width).len() * width,
    ensures
        partition(source, requested, width).len() == row_count(source.len(), width),
{
    let n = source.len();
    let m = consumed_len(n, requested);
    let rows = row_count(m, width);
    if n == 0 {
        assert(0nat % width == 0 && 0nat / width == 0) by (nonlinear_arith)
            requires
                width >= 1,
        ;
    } else if m == 0 {
        assert(rows == 0) by {
            assert(0nat % width == 0 && 0nat / width == 0) by (nonlinear_arith)
                requires
                    width >= 1,
            ;
        }
        assert(rows * width == 0) by (nonlinear_arith)
            requires
                rows == 0,
        ;
    } else {
        assert(rows >= 1) by {
            if rows == 0 {
                assert(m == width * (m / width) + m % width) by (nonlinear_arith)
                    requires
                        width >= 1,
                ;
                assert(width * 0 == 0) by (nonlinear_arith);
            }
        }
        lemma_row_bounds(m, width, rows - 1);
        // (rows - 1) * width < m <= n <= rows * width
        let k = (rows - 1) as nat;
        let c = (n - k * width) as nat;
        assert(rows * width == k * width + width) by (nonlinear_arith)
            requires
                rows == k + 1,
        ;
        if c == width {
            lemma_row_count(rows, 0, width);
        } else {
            lemma_row_count(k, c, width);
        }
    }
}

/// Every row of a page but the last holds exactly `width` bytes; the last
/// holds between one byte and `width` bytes. A page has no rows exactly when
/// no byte is taken from the source.
pub proof fn lemma_partition_is_grid(source: Seq<u8>, requested: nat, width: nat)
    requires
        width >= 1,
    ensures
        is_grid(partition(source, requested, width), width),
        partition(source, requested, width).len() == 0 <==> consumed_len(
            source.len(),
            requested,
        ) == 0,
{
    let m = consumed_len(source.len(), requested);
    let taken = source.take(m as int);
    let rows = chunks(taken, width);
    assert forall|i: int| 0 <= i < rows.len() implies {
        &&& i < rows.len() - 1 ==> (#[trigger] rows[i]).len() == width
        &&& i == rows.len() - 1 ==> 1 <= rows[i].len() <= width
    } by {
        lemma_row_bounds(m, width, i);
        assert((i + 1) * width == i * width + width) by (nonlinear_arith);
    }
    if m == 0 {
        assert(0nat % width == 0 && 0nat / width == 0) by (nonlinear_arith)
            requires
                width >= 1,
        ;
    } else if rows.len() == 0 {
        assert(m == width * (m / width) + m % width) by (nonlinear_arith)
            requires
                width >= 1,
        ;
        assert(width * 0 == 0) by (nonlinear_arith);
    }
}

/// Asking for more bytes than the source holds gives the whole source, cut
/// into rows, as long as the source holds no more than 65535 bytes.
pub proof fn lemma_partition_short_source(source: Seq<u8>, requested: nat, width: nat)
    requires
        width >= 1,
        requested > source.len(),
        source.len() <= MAX_PAGE_BYTES,
    ensures
        partition(source, requested, width) == chunks(source, width),
        total_len(partition(source, requested, width)) == source.len(),
        partition(source, requested, width).flatten() == source,
{
    lemma_partition_counts(source, requested, width);
    assert(source.take(source.len() as int) =~= source);
}

/// A page is made of the first bytes of the source alone: the bytes past the
/// first `limit` change nothing, where `limit` is at least the number of
/// bytes taken.
pub proof fn lemma_partition_reads_prefix(source: Seq<u8>, requested: nat, width: nat, limit: nat)
    requires
        consumed_len(source.len(), requested) <= limit <= source.len(),
    ensures
        partition(source.take(limit as int), requested, width) == partition(
            source,
            requested,
            width,
        ),
{
    let taken = consumed_len(source.len(), requested);
    assert(source.take(limit as int).take(taken as int) =~= source.take(taken as int));
}

/// Asking for no bytes gives a page without rows, whatever the source holds.
pub proof fn lemma_partition_nothing_requested(source: Seq<u8>, width: nat)
    requires
        width >= 1,
    ensures
        partition(source, 0, width) == Seq::<Seq<u8>>::empty(),
        total_len(partition(source, 0, width)) == 0,
{
    assert(0nat % width == 0 && 0nat / width == 0) by (nonlinear_arith)
        requires
            width >= 1,
    ;
}

/// Buffer to array.
///
/// Cuts the first bytes of `buf` into rows of `column_width` bytes: as many
/// bytes as `buf_len` asks for, but no more than `buf` holds and no more than
/// `MAX_PAGE_BYTES`. The last row holds what is left and may be shorter. A
/// column width of zero is refused.
///
/// # Arguments
///
/// * `buf` - Buffer to be read.
/// * `buf_len` - Buffer length.
/// * `column_width` - column width for output.
pub fn buf_to_array(buf: &[u8], buf_len: u64, column_width: u64) -> (result: Result<Page, Error>)
    ensures
        result is Err <==> column_width == 0,
        result matches Err(e) ==> e is InvalidConfiguration,
        result matches Ok(page) ==> {
            &&& page@ == partition(buf@, buf_len as nat, column_width as nat)
            &&& page.wf()
            &&& page.offset == 0
            &&& page.bytes == consumed_len(buf@.len(), buf_len as nat)
            &&& page.body.len() == row_count(page.bytes as nat, column_width as nat)
            &&& is_grid(page@, column_width as nat)
        },
{
    if column_width == 0 {
        return Err(Error::InvalidConfiguration);
    }
    let ghost width = column_width as nat;
    let mut page = Page::new();
    let mut line = Line::new();
    let mut i: usize = 0;
    proof {
        assert(0 * width == 0) by (nonlinear_arith);
    }
    while i < buf.len() && page.bytes < buf_len && page.bytes < MAX_PAGE_BYTES
        invariant
            width == column_width,
            width > 0,
            i <= buf.len(),
            i <= buf_len,
            i <= MAX_PAGE_BYTES,
            page.bytes == i,
            page.offset == 0,
            line.wf(),
            line.bytes < column_width,
            line.offset == page.body.len() * width,
            i == line.offset + line.bytes,
            line@ == buf@.subrange(line.offset as int, i as int),
            forall|r: int|
                0 <= r < page.body.len() ==> is_full_row(#[trigger] page.body[r], buf@, width, r),
        decreases buf.len() - i,
    {
        let b = buf[i];
        proof {
            assert(buf@.subrange(line.offset as int, i + 1) =~= buf@.subrange(
                line.offset as int,
                i as int,
            ).push(b));
            assert(sidebar(line.hex_body@.push(b)) =~= sidebar(line.hex_body@).push(
                sidebar_char(b),
            ));
        }
        line.hex_body.push(b);
        line.ascii.push(ascii_char(b));
        line.bytes = line.bytes + 1;
        page.bytes = page.bytes + 1;
        i = i + 1;
        if line.bytes >= column_width {
            proof {
                let k = page.body.len();
                assert((k + 1) * width == k * width + width) by (nonlinear_arith);
            }
            page.body.push(line);
            line = Line::new();
            line.offset = page.bytes;
        }
    }
    let ghost full = page.body.len();
    let ghost rest = line.bytes as nat;
    let ghost taken = buf@.take(i as int);
    if line.bytes > 0 {
        page.body.push(line);
    }
    proof {
        // The loop ends at the first of the three limits.
        assert(i == consumed_len(buf@.len(), buf_len as nat));
        lemma_row_count(full as nat, rest, width);
        let rows = partition(buf@, buf_len as nat, width);
        assert forall|r: int| 0 <= r < page@.len() implies page@[r] == rows[r] by {
            lemma_row_bounds(i as nat, width, r);
            assert((r + 1) * width == r * width + width) by (nonlinear_arith);
        }
        assert(page@ =~= rows);
        lemma_partition_is_grid(buf@, buf_len as nat, width);
        lemma_chunks_prefix_len(taken, width, rows.len());
        assert(rows.take(rows.len() as int) =~= rows);
        assert forall|r: int| 0 <= r < page.body.len() implies (#[trigger] page.body[r]).wf()
            && page.body[r].offset == page.offset + total_len(page@.take(r)) by {
            lemma_row_bounds(i as nat, width, r);
            lemma_chunks_prefix_len(taken, width, r as nat);
        }
    }
    Ok(page)
}

} // verus!
