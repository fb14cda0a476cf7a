//! Holds the evaluator's work against the scalar predicate: reads written
//! lines back into the numbers they hold, and compares the verdict on single
//! cells of a mask.

use crate::domain::{lemma_flat_index_in_range, BatchParameters};
use crate::oracle::{date_ok, luhn_ok, pin_ok, test_pin, PinMismatch};
use crate::serializer::{
    cell_text, digit, entry, record, row_text, rows_text, HYPHEN, RECORD_LEN, SPACE,
};
use vstd::prelude::*;

verus! {

/// An ASCII digit.
pub open spec fn is_digit(b: u8) -> bool {
    48 <= b <= 57
}

/// The place in a record of the `k`-th of its ten digits: the hyphen is
/// skipped.
pub open spec fn digit_place(k: int) -> int {
    if k < 6 {
        k
    } else {
        k + 1
    }
}

/// Eleven bytes: six digits, a hyphen, four digits.
pub open spec fn is_record(token: Seq<u8>) -> bool {
    &&& token.len() == RECORD_LEN
    &&& token[6] == HYPHEN
    &&& forall|k: int| 0 <= k < 10 ==> is_digit(#[trigger] token[digit_place(k)])
}

/// The ten digits of a record.
pub open spec fn record_digits(token: Seq<u8>) -> Seq<i32> {
    Seq::new(10, |k: int| (token[digit_place(k)] - 48) as i32)
}

/// What a token adds to the numbers of its line: its digits if it is a
/// record.
pub open spec fn token_pins(token: Seq<u8>) -> Seq<Seq<i32>> {
    if is_record(token) {
        seq![record_digits(token)]
    } else {
        Seq::empty()
    }
}

/// The numbers in `line` from the token that starts at `from` on, where the
/// bytes of that token before `at` hold no space. Tokens are what stands
/// between spaces, and before the first and after the last.
pub open spec fn pins_from(line: Seq<u8>, from: int, at: int) -> Seq<Seq<i32>>
    decreases line.len() - at,
{
    if at >= line.len() {
        token_pins(line.subrange(from, line.len() as int))
    } else if line[at] == SPACE {
        token_pins(line.subrange(from, at)) + pins_from(line, at + 1, at + 1)
    } else {
        pins_from(line, from, at + 1)
    }
}

/// The numbers of the records in a line, in their order.
pub open spec fn line_pins(line: Seq<u8>) -> Seq<Seq<i32>> {
    pins_from(line, 0, 0)
}

/// The digits that a record is written from.
pub open spec fn written_digits(a: int, b: int, c: int, checksum: int) -> Seq<i32> {
    seq![
        (a / 10) as i32,
        (a % 10) as i32,
        (b / 10) as i32,
        (b % 10) as i32,
        (c / 10) as i32,
        (c % 10) as i32,
        (checksum / 1000) as i32,
        (checksum / 100 % 10) as i32,
        (checksum / 10 % 10) as i32,
        (checksum % 10) as i32,
    ]
}

/// What is written as a record is read back as the digits it was written
/// from.
pub proof fn lemma_record_round_trip(a: int, b: int, c: int, checksum: int)
    requires
        0 <= a < 100,
        0 <= b < 100,
        0 <= c < 100,
        0 <= checksum < 10_000,
    ensures
        is_record(record(a, b, c, checksum)),
        record_digits(record(a, b, c, checksum)) == written_digits(a, b, c, checksum),
{
    let r = record(a, b, c, checksum);
    let w = written_digits(a, b, c, checksum);
    assert(0 <= checksum / 1000 <= 9 && 0 <= checksum / 100 % 10 <= 9 && 0 <= checksum / 10 % 10
        <= 9 && 0 <= checksum % 10 <= 9);
    assert(0 <= a / 10 <= 9 && 0 <= a % 10 <= 9);
    assert(0 <= b / 10 <= 9 && 0 <= b % 10 <= 9);
    assert(0 <= c / 10 <= 9 && 0 <= c % 10 <= 9);
    assert(r.len() == 11 && w.len() == 10);
    assert forall|k: int| 0 <= k < 10 implies is_digit(#[trigger] r[digit_place(k)]) && r[digit_place(
        k,
    )] - 48 == w[k] by {
        if k == 0 {
            assert(r[0] == digit(a / 10));
        } else if k == 1 {
            assert(r[1] == digit(a % 10));
        } else if k == 2 {
            assert(r[2] == digit(b / 10));
        } else if k == 3 {
            assert(r[3] == digit(b % 10));
        } else if k == 4 {
            assert(r[4] == digit(c / 10));
        } else if k == 5 {
            assert(r[5] == digit(c % 10));
        } else if k == 6 {
            assert(r[7] == digit(checksum / 1000));
        } else if k == 7 {
            assert(r[8] == digit(checksum / 100 % 10));
        } else if k == 8 {
            assert(r[9] == digit(checksum / 10 % 10));
        } else {
            assert(r[10] == digit(checksum % 10));
        }
    }
    assert(r[6] == HYPHEN);
    assert(record_digits(r) =~= w);
}

/// Reads one token: the ten digits if it is a record.
pub fn decode_record(token: &[u8]) -> (pin: Option<[i32; 10]>)
    ensures
        pin is Some <==> is_record(token@),
        pin is Some ==> pin->Some_0@ == record_digits(token@),
{
    if token.len() != RECORD_LEN || token[6] != HYPHEN {
        return None;
    }
    let mut pin: [i32; 10] = [0; 10];
    let mut k: usize = 0;
    while k < 10
        invariant
            k <= 10,
            token@.len() == 11,
            forall|j: int| 0 <= j < k ==> is_digit(#[trigger] token@[digit_place(j)]),
            forall|j: int| 0 <= j < k ==> pin@[j] == (token@[digit_place(j)] - 48) as i32,
        decreases 10 - k,
    {
        let place: usize = if k < 6 {
            k
        } else {
            k + 1
        };
        let byte: u8 = token[place];
        if byte < 48 || byte > 57 {
            assert(!is_digit(token@[digit_place(k as int)]));
            return None;
        }
        pin[k] = (byte - 48) as i32;
        k = k + 1;
    }
    assert(pin@ =~= record_digits(token@));
    Some(pin)
}

/// Reads the numbers of the records in a line. What stands between two
/// spaces and is no record is passed over.
pub fn scan_line(line: &[u8]) -> (pins: Vec<[i32; 10]>)
    ensures
        pins@.map_values(|pin: [i32; 10]| pin@) == line_pins(line@),
{
    let mut pins: Vec<[i32; 10]> = Vec::new();
    let mut from: usize = 0;
    let mut at: usize = 0;
    while at < line.len()
        invariant
            from <= at <= line@.len(),
            pins@.map_values(|pin: [i32; 10]| pin@) + pins_from(line@, from as int, at as int)
                == line_pins(line@),
        decreases line@.len() - at,
    {
        if line[at] == SPACE {
            let ghost before = pins@.map_values(|pin: [i32; 10]| pin@);
            let token = vstd::slice::slice_subrange(line, from, at);
            match decode_record(token) {
                Some(pin) => {
                    pins.push(pin);
                    assert(pins@.map_values(|pin: [i32; 10]| pin@) == before + token_pins(
                        token@,
                    ));
                },
                None => {
                    assert(before + token_pins(token@) == before);
                },
            }
            assert((before + token_pins(token@)) + pins_from(line@, at + 1, at + 1) == before + (
                token_pins(token@) + pins_from(line@, at + 1, at + 1)));
            from = at + 1;
        }
        at = at + 1;
    }
    let ghost before = pins@.map_values(|pin: [i32; 10]| pin@);
    let token = vstd::slice::slice_subrange(line, from, at);
    match decode_record(token) {
        Some(pin) => {
            pins.push(pin);
            assert(pins@.map_values(|pin: [i32; 10]| pin@) == before + token_pins(token@));
        },
        None => {
            assert(before + token_pins(token@) == before);
        },
    }
    pins
}

/// The digits of the candidate in the cell at the given positions.
pub open spec fn cell_digits(p: BatchParameters, ia: int, ib: int, ic: int) -> Seq<i32> {
    written_digits(
        p.domain.start_a + ia,
        p.domain.start_b + ib,
        p.domain.start_c + ic,
        p.checksum as int,
    )
}

/// The candidate in the cell at the given positions, as ten digits.
pub fn candidate(p: &BatchParameters, ia: u16, ib: u16, ic: u16) -> (pin: [i32; 10])
    ensures
        pin@ == cell_digits(*p, ia as int, ib as int, ic as int),
{
    let a: u32 = p.domain.start_a as u32 + ia as u32;
    let b: u32 = p.domain.start_b as u32 + ib as u32;
    let c: u32 = p.domain.start_c as u32 + ic as u32;
    let checksum: u32 = p.checksum as u32;
    let pin: [i32; 10] = [
        (a / 10) as i32,
        (a % 10) as i32,
        (b / 10) as i32,
        (b % 10) as i32,
        (c / 10) as i32,
        (c % 10) as i32,
        (checksum / 1000) as i32,
        (checksum / 100 % 10) as i32,
        (checksum / 10 % 10) as i32,
        (checksum % 10) as i32,
    ];
    assert(pin@ =~= cell_digits(*p, ia as int, ib as int, ic as int));
    pin
}

/// Holds the evaluator's verdict on one cell against the predicate, and
/// reports a difference together with the candidate and what each rule says
/// of it.
pub fn cross_check(p: &BatchParameters, mask: &[bool], ia: u16, ib: u16, ic: u16) -> (r: Result<
    (),
    PinMismatch,
>)
    requires
        p.domain.has_cell(ia as int, ib as int, ic as int),
        mask@.len() == p.domain.cells(),
    ensures
        ({
            let digits = cell_digits(*p, ia as int, ib as int, ic as int);
            let verdict = mask@[p.domain.mask_index(ia as int, ib as int, ic as int)];
            match r {
                Ok(()) => pin_ok(digits) == verdict,
                Err(m) => {
                    &&& pin_ok(digits) != verdict
                    &&& m.pin@ == digits
                    &&& m.expected == verdict
                    &&& m.actual == pin_ok(digits)
                    &&& m.luhns == luhn_ok(digits)
                    &&& m.date == date_ok(digits)
                },
            }
        }),
{
    let verdict = p.domain.accepts(mask, ia, ib, ic);
    test_pin(candidate(p, ia, ib, ic), verdict)
}

/// What a cell adds to the numbers of its line: its digits if the mask
/// accepts it.
pub open spec fn cell_pins(p: BatchParameters, mask: Seq<bool>, ia: int, ib: int, ic: int) -> Seq<
    Seq<i32>,
> {
    if mask[p.domain.mask_index(ia, ib, ic)] {
        seq![cell_digits(p, ia, ib, ic)]
    } else {
        Seq::empty()
    }
}

/// The numbers of the accepted among the first `n` cells along the `c` axis
/// at positions `ia`, `ib`.
pub open spec fn row_pins(p: BatchParameters, mask: Seq<bool>, ia: int, ib: int, n: int) -> Seq<
    Seq<i32>,
>
    decreases n,
{
    if n <= 0 {
        Seq::empty()
    } else {
        row_pins(p, mask, ia, ib, n - 1) + cell_pins(p, mask, ia, ib, n - 1)
    }
}

/// The numbers of the accepted cells in the first `n` rows along the `b`
/// axis at position `ia`.
pub open spec fn rows_pins(p: BatchParameters, mask: Seq<bool>, ia: int, n: int) -> Seq<Seq<i32>>
    decreases n,
{
    if n <= 0 {
        Seq::empty()
    } else {
        rows_pins(p, mask, ia, n - 1) + row_pins(p, mask, ia, n - 1, p.domain.extent_c as int)
    }
}

/// A text that is empty or ends with a space: the next byte starts a token.
spec fn closed(text: Seq<u8>) -> bool {
    text.len() == 0 || text.last() == SPACE
}

proof fn lemma_pins_shift(x: Seq<u8>, y: Seq<u8>, from: int, at: int)
    requires
        0 <= from <= at <= y.len(),
    ensures
        pins_from(x + y, x.len() + from, x.len() + at) == pins_from(y, from, at),
    decreases y.len() - at,
{
    let whole = x + y;
    if at >= y.len() {
        assert(whole.subrange(x.len() + from, whole.len() as int) == y.subrange(
            from,
            y.len() as int,
        ));
    } else if y[at] == SPACE {
        assert(whole.subrange(x.len() + from, x.len() + at) == y.subrange(from, at));
        lemma_pins_shift(x, y, at + 1, at + 1);
    } else {
        lemma_pins_shift(x, y, from, at + 1);
    }
}

proof fn lemma_pins_concat_from(x: Seq<u8>, y: Seq<u8>, from: int, at: int)
    requires
        closed(x),
        0 <= from <= at <= x.len(),
        forall|k: int| from <= k < at ==> x[k] != SPACE,
    ensures
        pins_from(x + y, from, at) == pins_from(x, from, at) + line_pins(y),
    decreases x.len() - at,
{
    let whole = x + y;
    if at >= x.len() {
        if x.len() > 0 && from < x.len() {
            assert(x[x.len() - 1] == SPACE);
        }
        assert(from == x.len());
        assert(x.subrange(from, x.len() as int) == Seq::<u8>::empty());
        lemma_pins_shift(x, y, 0, 0);
        assert(Seq::<Seq<i32>>::empty() + line_pins(y) == line_pins(y));
    } else if x[at] == SPACE {
        assert(whole.subrange(from, at) == x.subrange(from, at));
        lemma_pins_concat_from(x, y, at + 1, at + 1);
        let here = token_pins(x.subrange(from, at));
        assert((here + pins_from(x, at + 1, at + 1)) + line_pins(y) == here + (pins_from(
            x,
            at + 1,
            at + 1,
        ) + line_pins(y)));
    } else {
        lemma_pins_concat_from(x, y, from, at + 1);
    }
}

/// After a text that ends with a space, the numbers of what follows are
/// read as if it stood alone.
proof fn lemma_pins_concat(x: Seq<u8>, y: Seq<u8>)
    requires
        closed(x),
    ensures
        line_pins(x + y) == line_pins(x) + line_pins(y),
{
    lemma_pins_concat_from(x, y, 0, 0);
}

proof fn lemma_pins_skip(s: Seq<u8>, from: int, at: int, to: int)
    requires
        0 <= from <= at <= to <= s.len(),
        forall|k: int| at <= k < to ==> s[k] != SPACE,
    ensures
        pins_from(s, from, at) == pins_from(s, from, to),
    decreases to - at,
{
    if at < to {
        lemma_pins_skip(s, from, at + 1, to);
    }
}

/// An entry alone is read as the digits it was written from.
proof fn lemma_entry_pins(a: int, b: int, c: int, checksum: int)
    requires
        0 <= a < 100,
        0 <= b < 100,
        0 <= c < 100,
        0 <= checksum < 10_000,
    ensures
        line_pins(entry(a, b, c, checksum)) == seq![written_digits(a, b, c, checksum)],
        closed(entry(a, b, c, checksum)),
{
    let r = record(a, b, c, checksum);
    let e = entry(a, b, c, checksum);
    lemma_record_round_trip(a, b, c, checksum);
    assert(e.len() == 12 && e[11] == SPACE);
    assert forall|k: int| 0 <= k < 11 implies e[k] != SPACE by {
        assert(e[k] == r[k]);
        if k != 6 {
            let j = if k < 6 {
                k
            } else {
                k - 1
            };
            assert(is_digit(r[digit_place(j)]));
        }
    }
    lemma_pins_skip(e, 0, 0, 11);
    assert(e.subrange(0, 11) == r);
    assert(e.subrange(12, 12) == Seq::<u8>::empty());
    assert(pins_from(e, 12, 12) == Seq::<Seq<i32>>::empty());
    assert(pins_from(e, 0, 11) == token_pins(r) + pins_from(e, 12, 12));
}

proof fn lemma_cell_round_trip(p: BatchParameters, mask: Seq<bool>, ia: int, ib: int, ic: int)
    requires
        p.printable(),
        p.domain.has_cell(ia, ib, ic),
    ensures
        line_pins(cell_text(p, mask, ia, ib, ic)) == cell_pins(p, mask, ia, ib, ic),
        closed(cell_text(p, mask, ia, ib, ic)),
{
    lemma_flat_index_in_range(
        p.domain.extent_a as int,
        p.domain.extent_b as int,
        p.domain.extent_c as int,
        ia,
        ib,
        ic,
    );
    if mask[p.domain.mask_index(ia, ib, ic)] {
        lemma_entry_pins(
            p.domain.start_a + ia,
            p.domain.start_b + ib,
            p.domain.start_c + ic,
            p.checksum as int,
        );
    } else {
        assert(Seq::<u8>::empty().subrange(0, 0) == Seq::<u8>::empty());
    }
}

proof fn lemma_closed_concat(x: Seq<u8>, y: Seq<u8>)
    requires
        closed(x),
        closed(y),
    ensures
        closed(x + y),
{
    if y.len() == 0 {
        assert(x + y == x);
    }
}

proof fn lemma_row_round_trip(p: BatchParameters, mask: Seq<bool>, ia: int, ib: int, n: int)
    requires
        p.printable(),
        0 <= ia < p.domain.extent_a,
        0 <= ib < p.domain.extent_b,
        n <= p.domain.extent_c,
    ensures
        line_pins(row_text(p, mask, ia, ib, n)) == row_pins(p, mask, ia, ib, n),
        closed(row_text(p, mask, ia, ib, n)),
    decreases n,
{
    if n > 0 {
        lemma_row_round_trip(p, mask, ia, ib, n - 1);
        lemma_cell_round_trip(p, mask, ia, ib, n - 1);
        lemma_pins_concat(row_text(p, mask, ia, ib, n - 1), cell_text(p, mask, ia, ib, n - 1));
        lemma_closed_concat(row_text(p, mask, ia, ib, n - 1), cell_text(p, mask, ia, ib, n - 1));
    } else {
        assert(Seq::<u8>::empty().subrange(0, 0) == Seq::<u8>::empty());
    }
}

proof fn lemma_rows_round_trip(p: BatchParameters, mask: Seq<bool>, ia: int, n: int)
    requires
        p.printable(),
        0 <= ia < p.domain.extent_a,
        n <= p.domain.extent_b,
    ensures
        line_pins(rows_text(p, mask, ia, n)) == rows_pins(p, mask, ia, n),
        closed(rows_text(p, mask, ia, n)),
    decreases n,
{
    let width = p.domain.extent_c as int;
    if n > 0 {
        lemma_rows_round_trip(p, mask, ia, n - 1);
        lemma_row_round_trip(p, mask, ia, n - 1, width);
        lemma_pins_concat(rows_text(p, mask, ia, n - 1), row_text(p, mask, ia, n - 1, width));
        lemma_closed_concat(rows_text(p, mask, ia, n - 1), row_text(p, mask, ia, n - 1, width));
    } else {
        assert(Seq::<u8>::empty().subrange(0, 0) == Seq::<u8>::empty());
    }
}

/// What is written is read back: a line of a block, without its newline,
/// holds the numbers of the accepted cells of its position on the `a` axis,
/// in the order of the `b` axis and within it of the `c` axis, and nothing
/// else.
pub proof fn lemma_line_round_trip(p: BatchParameters, mask: Seq<bool>, ia: int)
    requires
        p.printable(),
        0 <= ia < p.domain.extent_a,
    ensures
        line_pins(rows_text(p, mask, ia, p.domain.extent_b as int)) == rows_pins(
            p,
            mask,
            ia,
            p.domain.extent_b as int,
        ),
{
    lemma_rows_round_trip(p, mask, ia, p.domain.extent_b as int);
}

} // verus!
