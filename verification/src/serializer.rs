//! Turns one acceptance mask into a block of text.
//!
//! A block has one line per value of the `a` axis. A line holds one record per
//! accepted cell, in the order of the `b` axis and within it of the `c` axis,
//! each followed by a space, and ends with a newline. A line without accepted
//! cells is just the newline.

use crate::domain::{
    lemma_flat_index_in_range, parameters_of, BatchParameters, IterationDomain, CHECKSUM_SPACE,
    FIELD_LIMIT,
};
use vstd::prelude::*;

verus! {

/// The byte `-` between the components and the suffix.
pub const HYPHEN: u8 = 45;

/// The byte that follows every record.
pub const SPACE: u8 = 32;

/// The byte that ends every line.
pub const NEWLINE: u8 = 10;

/// The number of bytes of a record.
pub const RECORD_LEN: usize = 11;

/// The number of bytes of a record and the space after it.
pub const ENTRY_LEN: usize = 12;

/// The ASCII digit for a value below ten.
pub open spec fn digit(v: int) -> u8 {
    (48 + v) as u8
}

/// The record `AABBCC-DDDD` of a candidate.
pub open spec fn record(a: int, b: int, c: int, checksum: int) -> Seq<u8> {
    seq![
        digit(a / 10),
        digit(a % 10),
        digit(b / 10),
        digit(b % 10),
        digit(c / 10),
        digit(c % 10),
        HYPHEN,
        digit(checksum / 1000),
        digit(checksum / 100 % 10),
        digit(checksum / 10 % 10),
        digit(checksum % 10),
    ]
}

/// A record and the space after it.
pub open spec fn entry(a: int, b: int, c: int, checksum: int) -> Seq<u8> {
    record(a, b, c, checksum).push(SPACE)
}

/// The entry of the candidate in the cell at the given positions.
pub open spec fn cell_entry(p: BatchParameters, ia: int, ib: int, ic: int) -> Seq<u8> {
    entry(
        p.domain.start_a + ia,
        p.domain.start_b + ib,
        p.domain.start_c + ic,
        p.checksum as int,
    )
}

/// What a cell adds to its line: its entry if the mask accepts it.
pub open spec fn cell_text(
    p: BatchParameters,
    mask: Seq<bool>,
    ia: int,
    ib: int,
    ic: int,
) -> Seq<u8> {
    if mask[p.domain.mask_index(ia, ib, ic)] {
        cell_entry(p, ia, ib, ic)
    } else {
        Seq::empty()
    }
}

/// The text of the first `n` cells along the `c` axis at positions `ia`, `ib`.
pub open spec fn row_text(p: BatchParameters, mask: Seq<bool>, ia: int, ib: int, n: int) -> Seq<
    u8,
>
    decreases n,
{
    if n <= 0 {
        Seq::empty()
    } else {
        row_text(p, mask, ia, ib, n - 1) + cell_text(p, mask, ia, ib, n - 1)
    }
}

/// The text of the first `n` rows along the `b` axis at position `ia`.
pub open spec fn rows_text(p: BatchParameters, mask: Seq<bool>, ia: int, n: int) -> Seq<u8>
    decreases n,
{
    if n <= 0 {
        Seq::empty()
    } else {
        rows_text(p, mask, ia, n - 1) + row_text(p, mask, ia, n - 1, p.domain.extent_c as int)
    }
}

/// The line of position `ia`: all of its rows, then a newline.
pub open spec fn line_text(p: BatchParameters, mask: Seq<bool>, ia: int) -> Seq<u8> {
    rows_text(p, mask, ia, p.domain.extent_b as int).push(NEWLINE)
}

/// The first `n` lines.
pub open spec fn lines_text(p: BatchParameters, mask: Seq<bool>, n: int) -> Seq<u8>
    decreases n,
{
    if n <= 0 {
        Seq::empty()
    } else {
        lines_text(p, mask, n - 1) + line_text(p, mask, n - 1)
    }
}

/// The block of one batch.
pub open spec fn block_text(p: BatchParameters, mask: Seq<bool>) -> Seq<u8> {
    lines_text(p, mask, p.domain.extent_a as int)
}

/// Why no block was written.
#[derive(Clone, Copy, Debug, PartialEq, Eq)]
pub enum SerializeError {
    /// The suffix has more than four digits.
    ChecksumTooWide,
    /// A component of some cell has more than two digits.
    ComponentTooWide,
    /// The mask does not have one entry per cell.
    MaskLength,
}

fn digit_byte(v: u16) -> (b: u8)
    requires
        v <= 9,
    ensures
        b == digit(v as int),
        48 <= b <= 57,
{
    48 + (v as u8)
}

/// Writes the record of one candidate.
pub fn format_record(a: u16, b: u16, c: u16, checksum: u16) -> (r: [u8; 11])
    requires
        a < FIELD_LIMIT,
        b < FIELD_LIMIT,
        c < FIELD_LIMIT,
        checksum < CHECKSUM_SPACE,
    ensures
        r@ == record(a as int, b as int, c as int, checksum as int),
{
    let r: [u8; 11] = [
        digit_byte(a / 10),
        digit_byte(a % 10),
        digit_byte(b / 10),
        digit_byte(b % 10),
        digit_byte(c / 10),
        digit_byte(c % 10),
        HYPHEN,
        digit_byte(checksum / 1000),
        digit_byte(checksum / 100 % 10),
        digit_byte(checksum / 10 % 10),
        digit_byte(checksum % 10),
    ];
    assert(r@ =~= record(a as int, b as int, c as int, checksum as int));
    r
}

fn append_entry(out: &mut Vec<u8>, pin: &[u8; 12])
    ensures
        final(out)@ == old(out)@ + pin@,
{
    let mut k: usize = 0;
    while k < 12
        invariant
            k <= 12,
            out@ == old(out)@ + pin@.subrange(0, k as int),
        decreases 12 - k,
    {
        out.push(pin[k]);
        k = k + 1;
    }
    assert(pin@.subrange(0, 12) == pin@);
}

/// Writes the block of one batch from the seven numbers of its parameters and
/// the evaluator's mask.
///
/// The caller has to make sure that the suffix has four digits, that every
/// component of every cell has two, and that the mask has one entry per cell.
pub fn parse(offsets: &[u16; 7], results: &[bool]) -> (block: Vec<u8>)
    requires
        parameters_of(offsets@).printable(),
        results@.len() == parameters_of(offsets@).domain.cells(),
    ensures
        block@ == block_text(parameters_of(offsets@), results@),
        newline_count(block@) == parameters_of(offsets@).domain.extent_a,
        none_accepted(results@) ==> block@ == Seq::new(
            parameters_of(offsets@).domain.extent_a as nat,
            |i: int| NEWLINE,
        ),
        all_accepted(results@) ==> block@.len() == full_block_len(parameters_of(offsets@).domain)
            && every_line_full(parameters_of(offsets@), results@),
{
    let p = BatchParameters::from_offsets(offsets);
    let d = p.domain;
    let checksum: u16 = p.checksum;
    let mut pin: [u8; 12] = [
        48,
        48,
        48,
        48,
        48,
        48,
        HYPHEN,
        digit_byte(checksum / 1000),
        digit_byte(checksum / 100 % 10),
        digit_byte(checksum / 10 % 10),
        digit_byte(checksum % 10),
        SPACE,
    ];
    let mut out: Vec<u8> = Vec::new();
    let mut ia: u16 = 0;
    while ia < d.extent_a
        invariant
            p.printable(),
            d == p.domain,
            checksum == p.checksum,
            results@.len() == d.cells(),
            ia <= d.extent_a,
            pin@.subrange(6, 12) == cell_entry(p, 0, 0, 0).subrange(6, 12),
            out@ == lines_text(p, results@, ia as int),
        decreases d.extent_a - ia,
    {
        let ghost done = out@;
        let mut ib: u16 = 0;
        while ib < d.extent_b
            invariant
                p.printable(),
                d == p.domain,
                checksum == p.checksum,
                results@.len() == d.cells(),
                ia < d.extent_a,
                ib <= d.extent_b,
                pin@.subrange(6, 12) == cell_entry(p, 0, 0, 0).subrange(6, 12),
                out@ == done + rows_text(p, results@, ia as int, ib as int),
            decreases d.extent_b - ib,
        {
            let ghost rows = out@;
            let mut ic: u16 = 0;
            while ic < d.extent_c
                invariant
                    p.printable(),
                    d == p.domain,
                    checksum == p.checksum,
                    results@.len() == d.cells(),
                    ia < d.extent_a,
                    ib < d.extent_b,
                    ic <= d.extent_c,
                    pin@.subrange(6, 12) == cell_entry(p, 0, 0, 0).subrange(6, 12),
                    out@ == rows + row_text(p, results@, ia as int, ib as int, ic as int),
                decreases d.extent_c - ic,
            {
                if d.accepts(results, ia, ib, ic) {
                    proof {
                        // the domain has a cell, so every component has two digits
                        lemma_flat_index_in_range(
                            d.extent_a as int,
                            d.extent_b as int,
                            d.extent_c as int,
                            ia as int,
                            ib as int,
                            ic as int,
                        );
                    }
                    let a: u16 = d.start_a + ia;
                    let b: u16 = d.start_b + ib;
                    let c: u16 = d.start_c + ic;
                    pin[0] = digit_byte(a / 10);
                    pin[1] = digit_byte(a % 10);
                    pin[2] = digit_byte(b / 10);
                    pin[3] = digit_byte(b % 10);
                    pin[4] = digit_byte(c / 10);
                    pin[5] = digit_byte(c % 10);
                    assert(pin@ == cell_entry(p, ia as int, ib as int, ic as int)) by {
                        let e = cell_entry(p, ia as int, ib as int, ic as int);
                        let z = cell_entry(p, 0, 0, 0);
                        assert forall|k: int| 6 <= k < 12 implies pin@[k] == e[k] by {
                            assert(pin@[k] == pin@.subrange(6, 12)[k - 6]);
                            assert(z[k] == z.subrange(6, 12)[k - 6]);
                        }
                    }
                    append_entry(&mut out, &pin);
                }
                assert(out@ == rows + row_text(p, results@, ia as int, ib as int, ic + 1)) by {
                    let before = row_text(p, results@, ia as int, ib as int, ic as int);
                    let cell = cell_text(p, results@, ia as int, ib as int, ic as int);
                    assert((rows + before) + cell == rows + (before + cell));
                }
                ic = ic + 1;
            }
            assert(out@ == done + rows_text(p, results@, ia as int, ib + 1)) by {
                let before = rows_text(p, results@, ia as int, ib as int);
                let row = row_text(p, results@, ia as int, ib as int, d.extent_c as int);
                assert((done + before) + row == done + (before + row));
            }
            ib = ib + 1;
        }
        out.push(NEWLINE);
        assert(out@ == lines_text(p, results@, ia + 1)) by {
            let rows = rows_text(p, results@, ia as int, d.extent_b as int);
            assert((done + rows).push(NEWLINE) == done + rows.push(NEWLINE));
        }
        ia = ia + 1;
    }
    proof {
        lemma_line_count(p, results@);
        if none_accepted(results@) {
            lemma_none_accepted(p, results@);
        }
        if all_accepted(results@) {
            lemma_all_accepted(p, results@);
        }
    }
    out
}

/// What `serialize` returns: the block, or the first reason against it.
pub open spec fn serialize_outcome(p: BatchParameters, mask: Seq<bool>) -> Result<
    Seq<u8>,
    SerializeError,
> {
    if p.checksum >= CHECKSUM_SPACE {
        Err(SerializeError::ChecksumTooWide)
    } else if !p.domain.fits_record() {
        Err(SerializeError::ComponentTooWide)
    } else if mask.len() != p.domain.cells() {
        Err(SerializeError::MaskLength)
    } else {
        Ok(block_text(p, mask))
    }
}

/// Writes the block of one batch, or says why the batch cannot be written.
pub fn serialize(domain: &IterationDomain, checksum: u16, mask: &[bool]) -> (r: Result<
    Vec<u8>,
    SerializeError,
>)
    ensures
        match serialize_outcome((BatchParameters { domain: *domain, checksum }), mask@) {
            Ok(text) => r is Ok && r->Ok_0@ == text,
            Err(e) => r == Err::<Vec<u8>, SerializeError>(e),
        },
        r is Ok ==> newline_count(r->Ok_0@) == domain.extent_a,
        r is Ok && none_accepted(mask@) ==> r->Ok_0@ == Seq::new(
            domain.extent_a as nat,
            |i: int| NEWLINE,
        ),
        r is Ok && all_accepted(mask@) ==> r->Ok_0@.len() == full_block_len(*domain)
            && every_line_full((BatchParameters { domain: *domain, checksum }), mask@),
{
    let p = BatchParameters::new(*domain, checksum);
    if checksum >= CHECKSUM_SPACE {
        return Err(SerializeError::ChecksumTooWide);
    }
    if !domain.fits() {
        return Err(SerializeError::ComponentTooWide);
    }
    if mask.len() as u64 != domain.cell_count() {
        return Err(SerializeError::MaskLength);
    }
    let offsets = p.to_offsets();
    Ok(parse(&offsets, mask))
}

/// The number of newlines in a text.
pub open spec fn newline_count(s: Seq<u8>) -> nat
    decreases s.len(),
{
    if s.len() == 0 {
        0
    } else {
        newline_count(s.drop_last()) + if s.last() == NEWLINE {
            1nat
        } else {
            0nat
        }
    }
}

/// Newlines are counted part by part.
pub proof fn lemma_newline_count_concat(x: Seq<u8>, y: Seq<u8>)
    ensures
        newline_count(x + y) == newline_count(x) + newline_count(y),
    decreases y.len(),
{
    if y.len() == 0 {
        assert(x + y == x);
    } else {
        lemma_newline_count_concat(x, y.drop_last());
        assert((x + y).drop_last() == x + y.drop_last());
        assert((x + y).last() == y.last());
    }
}

proof fn lemma_no_newline(s: Seq<u8>)
    requires
        forall|k: int| 0 <= k < s.len() ==> s[k] != NEWLINE,
    ensures
        newline_count(s) == 0,
    decreases s.len(),
{
    if s.len() > 0 {
        lemma_no_newline(s.drop_last());
    }
}

proof fn lemma_cell_has_no_newline(p: BatchParameters, mask: Seq<bool>, ia: int, ib: int, ic: int)
    requires
        p.printable(),
        p.domain.has_cell(ia, ib, ic),
    ensures
        newline_count(cell_text(p, mask, ia, ib, ic)) == 0,
{
    lemma_flat_index_in_range(
        p.domain.extent_a as int,
        p.domain.extent_b as int,
        p.domain.extent_c as int,
        ia,
        ib,
        ic,
    );
    lemma_no_newline(cell_text(p, mask, ia, ib, ic));
}

proof fn lemma_row_has_no_newline(p: BatchParameters, mask: Seq<bool>, ia: int, ib: int, n: int)
    requires
        p.printable(),
        0 <= ia < p.domain.extent_a,
        0 <= ib < p.domain.extent_b,
        n <= p.domain.extent_c,
    ensures
        newline_count(row_text(p, mask, ia, ib, n)) == 0,
    decreases n,
{
    if n > 0 {
        lemma_row_has_no_newline(p, mask, ia, ib, n - 1);
        lemma_cell_has_no_newline(p, mask, ia, ib, n - 1);
        lemma_newline_count_concat(
            row_text(p, mask, ia, ib, n - 1),
            cell_text(p, mask, ia, ib, n - 1),
        );
    }
}

proof fn lemma_rows_have_no_newline(p: BatchParameters, mask: Seq<bool>, ia: int, n: int)
    requires
        p.printable(),
        0 <= ia < p.domain.extent_a,
        n <= p.domain.extent_b,
    ensures
        newline_count(rows_text(p, mask, ia, n)) == 0,
    decreases n,
{
    if n > 0 {
        lemma_rows_have_no_newline(p, mask, ia, n - 1);
        lemma_row_has_no_newline(p, mask, ia, n - 1, p.domain.extent_c as int);
        lemma_newline_count_concat(
            rows_text(p, mask, ia, n - 1),
            row_text(p, mask, ia, n - 1, p.domain.extent_c as int),
        );
    }
}

/// The first `n` lines of a block hold `n` newlines, and each of them holds
/// its only newline at its end.
pub proof fn lemma_lines_count(p: BatchParameters, mask: Seq<bool>, n: int)
    requires
        p.printable(),
        0 <= n <= p.domain.extent_a,
    ensures
        newline_count(lines_text(p, mask, n)) == n,
        forall|ia: int|
            0 <= ia < n ==> newline_count(
                #[trigger] rows_text(p, mask, ia, p.domain.extent_b as int),
            ) == 0,
    decreases n,
{
    if n > 0 {
        lemma_lines_count(p, mask, n - 1);
        let rows = rows_text(p, mask, n - 1, p.domain.extent_b as int);
        lemma_rows_have_no_newline(p, mask, n - 1, p.domain.extent_b as int);
        assert(rows.push(NEWLINE).drop_last() == rows);
        lemma_newline_count_concat(lines_text(p, mask, n - 1), line_text(p, mask, n - 1));
    }
}

/// A block has exactly one line per value of the `a` axis, however many
/// cells the mask accepts: it is the lines of the positions 0, 1, ... in
/// turn, each a text without a newline followed by one.
pub proof fn lemma_line_count(p: BatchParameters, mask: Seq<bool>)
    requires
        p.printable(),
    ensures
        newline_count(block_text(p, mask)) == p.domain.extent_a,
        forall|ia: int|
            0 <= ia < p.domain.extent_a ==> newline_count(
                #[trigger] rows_text(p, mask, ia, p.domain.extent_b as int),
            ) == 0,
{
    lemma_lines_count(p, mask, p.domain.extent_a as int);
}

/// A mask without a true value.
pub open spec fn none_accepted(mask: Seq<bool>) -> bool {
    forall|i: int| 0 <= i < mask.len() ==> !mask[i]
}

/// A mask without a false value.
pub open spec fn all_accepted(mask: Seq<bool>) -> bool {
    forall|i: int| 0 <= i < mask.len() ==> mask[i]
}

proof fn lemma_empty_row(p: BatchParameters, mask: Seq<bool>, ia: int, ib: int, n: int)
    requires
        mask.len() == p.domain.cells(),
        none_accepted(mask),
        0 <= ia < p.domain.extent_a,
        0 <= ib < p.domain.extent_b,
        n <= p.domain.extent_c,
    ensures
        row_text(p, mask, ia, ib, n) == Seq::<u8>::empty(),
    decreases n,
{
    if n > 0 {
        lemma_empty_row(p, mask, ia, ib, n - 1);
        lemma_flat_index_in_range(
            p.domain.extent_a as int,
            p.domain.extent_b as int,
            p.domain.extent_c as int,
            ia,
            ib,
            n - 1,
        );
    }
}

proof fn lemma_empty_rows(p: BatchParameters, mask: Seq<bool>, ia: int, n: int)
    requires
        mask.len() == p.domain.cells(),
        none_accepted(mask),
        0 <= ia < p.domain.extent_a,
        n <= p.domain.extent_b,
    ensures
        rows_text(p, mask, ia, n) == Seq::<u8>::empty(),
    decreases n,
{
    if n > 0 {
        lemma_empty_rows(p, mask, ia, n - 1);
        lemma_empty_row(p, mask, ia, n - 1, p.domain.extent_c as int);
    }
}

proof fn lemma_empty_lines(p: BatchParameters, mask: Seq<bool>, n: int)
    requires
        mask.len() == p.domain.cells(),
        none_accepted(mask),
        0 <= n <= p.domain.extent_a,
    ensures
        lines_text(p, mask, n) == Seq::new(n as nat, |i: int| NEWLINE),
    decreases n,
{
    if n > 0 {
        lemma_empty_lines(p, mask, n - 1);
        lemma_empty_rows(p, mask, n - 1, p.domain.extent_b as int);
        assert(line_text(p, mask, n - 1) == seq![NEWLINE]);
        assert(lines_text(p, mask, n) == Seq::new(n as nat, |i: int| NEWLINE));
    }
}

/// Where nothing is accepted, the block is one empty line per value of the
/// `a` axis.
pub proof fn lemma_none_accepted(p: BatchParameters, mask: Seq<bool>)
    requires
        mask.len() == p.domain.cells(),
        none_accepted(mask),
    ensures
        block_text(p, mask) == Seq::new(p.domain.extent_a as nat, |i: int| NEWLINE),
{
    lemma_empty_lines(p, mask, p.domain.extent_a as int);
}

/// Where the entry of the cell at `ib`, `ic` starts in a line in which every
/// cell is accepted.
pub open spec fn entry_offset(extent_c: int, ib: int, ic: int) -> int {
    ENTRY_LEN * (ib * extent_c + ic)
}

/// The twelve bytes of `text` from `at` on.
pub open spec fn entry_at(text: Seq<u8>, at: int) -> Seq<u8> {
    text.subrange(at, at + ENTRY_LEN)
}

proof fn lemma_full_row(p: BatchParameters, mask: Seq<bool>, ia: int, ib: int, n: int)
    requires
        mask.len() == p.domain.cells(),
        all_accepted(mask),
        0 <= ia < p.domain.extent_a,
        0 <= ib < p.domain.extent_b,
        0 <= n <= p.domain.extent_c,
    ensures
        row_text(p, mask, ia, ib, n).len() == ENTRY_LEN * n,
        forall|ic: int|
            0 <= ic < n ==> entry_at(row_text(p, mask, ia, ib, n), ENTRY_LEN * ic) == #[trigger] cell_entry(
                p,
                ia,
                ib,
                ic,
            ),
    decreases n,
{
    if n > 0 {
        lemma_full_row(p, mask, ia, ib, n - 1);
        lemma_flat_index_in_range(
            p.domain.extent_a as int,
            p.domain.extent_b as int,
            p.domain.extent_c as int,
            ia,
            ib,
            n - 1,
        );
        let before = row_text(p, mask, ia, ib, n - 1);
        let last = cell_entry(p, ia, ib, n - 1);
        let row = row_text(p, mask, ia, ib, n);
        assert(row == before + last);
        assert(last.len() == ENTRY_LEN);
        assert forall|ic: int| 0 <= ic < n implies entry_at(row, ENTRY_LEN * ic) == #[trigger] cell_entry(
            p,
            ia,
            ib,
            ic,
        ) by {
            if ic < n - 1 {
                assert(entry_at(before, ENTRY_LEN * ic) == cell_entry(p, ia, ib, ic));
                assert(entry_at(row, ENTRY_LEN * ic) == entry_at(before, ENTRY_LEN * ic));
            } else {
                assert(entry_at(row, ENTRY_LEN * ic) == last);
            }
        }
    }
}

proof fn lemma_full_rows(p: BatchParameters, mask: Seq<bool>, ia: int, n: int)
    requires
        mask.len() == p.domain.cells(),
        all_accepted(mask),
        0 <= ia < p.domain.extent_a,
        0 <= n <= p.domain.extent_b,
    ensures
        rows_text(p, mask, ia, n).len() == ENTRY_LEN * (n * p.domain.extent_c),
        forall|ib: int, ic: int|
            0 <= ib < n && 0 <= ic < p.domain.extent_c ==> entry_at(
                rows_text(p, mask, ia, n),
                entry_offset(p.domain.extent_c as int, ib, ic),
            ) == #[trigger] cell_entry(p, ia, ib, ic),
    decreases n,
{
    let width = p.domain.extent_c as int;
    if n > 0 {
        lemma_full_rows(p, mask, ia, n - 1);
        lemma_full_row(p, mask, ia, n - 1, width);
        let before = rows_text(p, mask, ia, n - 1);
        let row = row_text(p, mask, ia, n - 1, width);
        let rows = rows_text(p, mask, ia, n);
        assert(rows == before + row);
        assert(n * width == (n - 1) * width + width) by (nonlinear_arith);
        assert forall|ib: int, ic: int| 0 <= ib < n && 0 <= ic < width implies entry_at(
            rows,
            entry_offset(width, ib, ic),
        ) == #[trigger] cell_entry(p, ia, ib, ic) by {
            let at = entry_offset(width, ib, ic);
            if ib < n - 1 {
                assert(ib * width + ic + 1 <= (n - 1) * width) by (nonlinear_arith)
                    requires
                        0 <= ib < n - 1,
                        0 <= ic < width,
                ;
                assert(0 <= ib * width) by (nonlinear_arith)
                    requires
                        0 <= ib,
                        0 <= width,
                ;
                assert(entry_at(before, at) == cell_entry(p, ia, ib, ic));
                assert(entry_at(rows, at) == entry_at(before, at));
            } else {
                assert(at == before.len() + ENTRY_LEN * ic);
                assert(entry_at(row, ENTRY_LEN * ic) == cell_entry(p, ia, ib, ic));
                assert(entry_at(rows, at) == entry_at(row, ENTRY_LEN * ic));
            }
        }
    } else {
        assert(n * width == 0) by (nonlinear_arith)
            requires
                n == 0,
        ;
    }
}

proof fn lemma_full_lines(p: BatchParameters, mask: Seq<bool>, n: int)
    requires
        mask.len() == p.domain.cells(),
        all_accepted(mask),
        0 <= n <= p.domain.extent_a,
    ensures
        lines_text(p, mask, n).len() == n * (ENTRY_LEN * (p.domain.extent_b * p.domain.extent_c)
            + 1),
    decreases n,
{
    let line = ENTRY_LEN * (p.domain.extent_b * p.domain.extent_c) + 1;
    if n > 0 {
        lemma_full_lines(p, mask, n - 1);
        lemma_full_rows(p, mask, n - 1, p.domain.extent_b as int);
        assert(n * line == (n - 1) * line + line) by (nonlinear_arith);
    } else {
        assert(n * line == 0) by (nonlinear_arith)
            requires
                n == 0,
        ;
    }
}

/// The length of a block in which every cell is accepted: per line twelve
/// bytes for each cell of the line and one for the newline.
pub open spec fn full_block_len(d: IterationDomain) -> int {
    d.extent_a * (ENTRY_LEN * (d.extent_b * d.extent_c) + 1)
}

/// Every line of the block holds the entries of all cells of its position on
/// the `a` axis, one after the other in the order of the `b` axis and within
/// it of the `c` axis, and then the newline.
pub open spec fn every_line_full(p: BatchParameters, mask: Seq<bool>) -> bool {
    &&& forall|ia: int|
        0 <= ia < p.domain.extent_a ==> (#[trigger] line_text(p, mask, ia)).len() == ENTRY_LEN * (
        p.domain.extent_b * p.domain.extent_c) + 1
    &&& forall|ia: int, ib: int, ic: int|
        p.domain.has_cell(ia, ib, ic) ==> entry_at(
            line_text(p, mask, ia),
            entry_offset(p.domain.extent_c as int, ib, ic),
        ) == #[trigger] cell_entry(p, ia, ib, ic)
}

/// Where everything is accepted, every line is full.
pub proof fn lemma_all_accepted(p: BatchParameters, mask: Seq<bool>)
    requires
        mask.len() == p.domain.cells(),
        all_accepted(mask),
    ensures
        block_text(p, mask).len() == full_block_len(p.domain),
        every_line_full(p, mask),
{
    let height = p.domain.extent_b as int;
    let width = p.domain.extent_c as int;
    lemma_full_lines(p, mask, p.domain.extent_a as int);
    assert forall|ia: int| 0 <= ia < p.domain.extent_a implies (#[trigger] line_text(
        p,
        mask,
        ia,
    )).len() == ENTRY_LEN * (height * width) + 1 by {
        lemma_full_rows(p, mask, ia, height);
    }
    assert forall|ia: int, ib: int, ic: int| p.domain.has_cell(ia, ib, ic) implies entry_at(
        line_text(p, mask, ia),
        entry_offset(width, ib, ic),
    ) == #[trigger] cell_entry(p, ia, ib, ic) by {
        lemma_full_rows(p, mask, ia, height);
        let rows = rows_text(p, mask, ia, height);
        let at = entry_offset(width, ib, ic);
        assert(ib * width + ic + 1 <= height * width) by (nonlinear_arith)
            requires
                0 <= ib < height,
                0 <= ic < width,
        ;
        assert(0 <= ib * width) by (nonlinear_arith)
            requires
                0 <= ib,
                0 <= width,
        ;
        assert(entry_at(rows, at) == cell_entry(p, ia, ib, ic));
        assert(entry_at(rows.push(NEWLINE), at) == entry_at(rows, at));
    }
}

} // verus!
