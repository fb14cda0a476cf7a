//! The iteration space of one batch and its encodings towards the evaluator.

use vstd::arithmetic::div_mod::lemma_fundamental_div_mod_converse;
use vstd::prelude::*;

verus! {

/// The number of values that the four-digit suffix can take.
pub const CHECKSUM_SPACE: u16 = 10_000;

/// The first value that no longer fits a two-digit field.
pub const FIELD_LIMIT: u16 = 100;

/// A box of candidate components. The three axes are `a`, `b` and `c`; each
/// has a first value and a size. A cell is named by its position on each axis,
/// counted from 0; its component on an axis is the axis' start plus that
/// position.
#[derive(Clone, Copy, Debug, PartialEq, Eq)]
pub struct IterationDomain {
    pub start_a: u16,
    pub start_b: u16,
    pub start_c: u16,
    pub extent_a: u16,
    pub extent_b: u16,
    pub extent_c: u16,
}

/// The input of one evaluator call: a domain and the suffix shared by all of
/// its candidates.
#[derive(Clone, Copy, Debug, PartialEq, Eq)]
pub struct BatchParameters {
    pub domain: IterationDomain,
    pub checksum: u16,
}

/// The position of a cell in a flat mask over a box with the given sizes of
/// the `a` and `b` axes. The `a` axis varies fastest.
pub open spec fn flat_index(extent_a: int, extent_b: int, ia: int, ib: int, ic: int) -> int {
    ia + extent_a * ib + extent_a * extent_b * ic
}

/// A flat index of a cell inside the box is below the number of cells.
pub proof fn lemma_flat_index_in_range(ea: int, eb: int, ec: int, ia: int, ib: int, ic: int)
    requires
        0 <= ia < ea,
        0 <= ib < eb,
        0 <= ic < ec,
    ensures
        0 <= flat_index(ea, eb, ia, ib, ic) < ea * eb * ec,
        0 < ea * eb <= ea * eb * ec,
        ea * ib + ia < ea * eb,
{
    assert(ea * ib + ia < ea * eb) by (nonlinear_arith)
        requires
            0 <= ia < ea,
            0 <= ib < eb,
    ;
    assert(0 <= ea * ib) by (nonlinear_arith)
        requires
            0 <= ea,
            0 <= ib,
    ;
    assert(0 < ea * eb) by (nonlinear_arith)
        requires
            0 < ea,
            0 < eb,
    ;
    let plane = ea * eb;
    assert(0 <= plane * ic && plane * ic + plane <= plane * ec) by (nonlinear_arith)
        requires
            0 < plane,
            0 <= ic < ec,
    ;
}

/// Two cells of the box with the same flat index are the same cell.
pub proof fn lemma_flat_index_injective(
    ea: int,
    eb: int,
    ia: int,
    ib: int,
    ic: int,
    ja: int,
    jb: int,
    jc: int,
)
    requires
        0 <= ia < ea,
        0 <= ja < ea,
        0 <= ib < eb,
        0 <= jb < eb,
        0 <= ic,
        0 <= jc,
        flat_index(ea, eb, ia, ib, ic) == flat_index(ea, eb, ja, jb, jc),
    ensures
        ia == ja && ib == jb && ic == jc,
{
    let plane = ea * eb;
    let p = ea * ib + ia;
    let q = ea * jb + ja;
    lemma_flat_index_in_range(ea, eb, ic + 1, ia, ib, ic);
    lemma_flat_index_in_range(ea, eb, jc + 1, ja, jb, jc);
    let index = flat_index(ea, eb, ia, ib, ic);
    assert(plane * ic == ic * plane && plane * jc == jc * plane) by (nonlinear_arith);
    lemma_fundamental_div_mod_converse(index, plane, ic, p);
    lemma_fundamental_div_mod_converse(index, plane, jc, q);
    assert(ea * ib == ib * ea && ea * jb == jb * ea) by (nonlinear_arith);
    lemma_fundamental_div_mod_converse(p, ea, ib, ia);
    lemma_fundamental_div_mod_converse(p, ea, jb, ja);
}

impl IterationDomain {
    /// The number of cells.
    pub open spec fn cells(self) -> int {
        self.extent_a * self.extent_b * self.extent_c
    }

    /// Whether the three positions name a cell of this domain.
    pub open spec fn has_cell(self, ia: int, ib: int, ic: int) -> bool {
        &&& 0 <= ia < self.extent_a
        &&& 0 <= ib < self.extent_b
        &&& 0 <= ic < self.extent_c
    }

    /// Where the evaluator puts the verdict on a cell in its mask.
    pub open spec fn mask_index(self, ia: int, ib: int, ic: int) -> int {
        flat_index(self.extent_a as int, self.extent_b as int, ia, ib, ic)
    }

    /// Every component of every cell can be written with two digits. A domain
    /// without cells has nothing to write.
    pub open spec fn fits_record(self) -> bool {
        self.cells() == 0 || {
            &&& self.start_a + self.extent_a <= FIELD_LIMIT
            &&& self.start_b + self.extent_b <= FIELD_LIMIT
            &&& self.start_c + self.extent_c <= FIELD_LIMIT
        }
    }

    pub fn new(
        start_a: u16,
        start_b: u16,
        start_c: u16,
        extent_a: u16,
        extent_b: u16,
        extent_c: u16,
    ) -> (d: Self)
        ensures
            d == (IterationDomain { start_a, start_b, start_c, extent_a, extent_b, extent_c }),
    {
        IterationDomain { start_a, start_b, start_c, extent_a, extent_b, extent_c }
    }

    /// The number of cells, which is the length of a mask over this domain.
    pub fn cell_count(&self) -> (n: u64)
        ensures
            n == self.cells(),
    {
        assert(self.extent_a * self.extent_b <= 0x1_0000 * 0x1_0000) by (nonlinear_arith)
            requires
                self.extent_a < 0x1_0000,
                self.extent_b < 0x1_0000,
        ;
        let plane: u64 = (self.extent_a as u64) * (self.extent_b as u64);
        assert(plane * self.extent_c <= 0x1_0000 * 0x1_0000 * 0x1_0000) by (nonlinear_arith)
            requires
                plane == self.extent_a * self.extent_b,
                self.extent_a < 0x1_0000,
                self.extent_b < 0x1_0000,
                self.extent_c < 0x1_0000,
        ;
        plane * (self.extent_c as u64)
    }

    /// The mask index of the cell at the given positions.
    pub fn index_of(&self, ia: u16, ib: u16, ic: u16) -> (i: u64)
        requires
            self.has_cell(ia as int, ib as int, ic as int),
        ensures
            i == self.mask_index(ia as int, ib as int, ic as int),
            i < self.cells(),
    {
        proof {
            lemma_flat_index_in_range(
                self.extent_a as int,
                self.extent_b as int,
                self.extent_c as int,
                ia as int,
                ib as int,
                ic as int,
            );
        }
        let ea: u64 = self.extent_a as u64;
        assert(ea * self.extent_b <= 0xffff * 0xffff) by (nonlinear_arith)
            requires
                0 <= ea <= 0xffff,
                self.extent_b <= 0xffff,
        ;
        let plane: u64 = ea * (self.extent_b as u64);
        assert(0 <= plane * ic <= 0xffff * 0xffff * 0xffff) by (nonlinear_arith)
            requires
                0 <= plane <= 0xffff * 0xffff,
                0 <= ic <= 0xffff,
        ;
        assert(0 <= ea * ib) by (nonlinear_arith)
            requires
                0 <= ea,
                0 <= ib,
        ;
        (ia as u64) + ea * (ib as u64) + plane * (ic as u64)
    }

    /// Reads the evaluator's verdict on the cell at the given positions.
    pub fn accepts(&self, mask: &[bool], ia: u16, ib: u16, ic: u16) -> (accepted: bool)
        requires
            self.has_cell(ia as int, ib as int, ic as int),
            mask@.len() == self.cells(),
        ensures
            accepted == mask@[self.mask_index(ia as int, ib as int, ic as int)],
    {
        let index: u64 = self.index_of(ia, ib, ic);
        mask[index as usize]
    }

    /// Tests whether every cell can be written with two digits per component.
    pub fn fits(&self) -> (ok: bool)
        ensures
            ok == self.fits_record(),
    {
        if self.extent_a == 0 || self.extent_b == 0 || self.extent_c == 0 {
            assert(self.cells() == 0) by (nonlinear_arith)
                requires
                    self.extent_a == 0 || self.extent_b == 0 || self.extent_c == 0,
                    self.cells() == self.extent_a * self.extent_b * self.extent_c,
            ;
            return true;
        }
        assert(self.cells() > 0) by (nonlinear_arith)
            requires
                self.extent_a > 0,
                self.extent_b > 0,
                self.extent_c > 0,
                self.cells() == self.extent_a * self.extent_b * self.extent_c,
        ;
        (self.start_a as u32) + (self.extent_a as u32) <= (FIELD_LIMIT as u32)
            && (self.start_b as u32) + (self.extent_b as u32) <= (FIELD_LIMIT as u32)
            && (self.start_c as u32) + (self.extent_c as u32) <= (FIELD_LIMIT as u32)
    }
}

/// The parameters that seven numbers stand for: the three starts, the suffix,
/// the three extents.
pub open spec fn parameters_of(offsets: Seq<u16>) -> BatchParameters {
    BatchParameters {
        domain: IterationDomain {
            start_a: offsets[0],
            start_b: offsets[1],
            start_c: offsets[2],
            extent_a: offsets[4],
            extent_b: offsets[5],
            extent_c: offsets[6],
        },
        checksum: offsets[3],
    }
}

impl BatchParameters {
    /// The seven numbers handed to the evaluator: the three starts, the
    /// suffix, the three extents.
    pub open spec fn offsets(self) -> Seq<u16> {
        seq![
            self.domain.start_a,
            self.domain.start_b,
            self.domain.start_c,
            self.checksum,
            self.domain.extent_a,
            self.domain.extent_b,
            self.domain.extent_c,
        ]
    }

    /// The suffix is a four-digit value and every cell fits its record.
    pub open spec fn printable(self) -> bool {
        self.checksum < CHECKSUM_SPACE && self.domain.fits_record()
    }

    pub fn new(domain: IterationDomain, checksum: u16) -> (p: Self)
        ensures
            p == (BatchParameters { domain, checksum }),
    {
        BatchParameters { domain, checksum }
    }

    /// Encodes the parameters for the evaluator.
    pub fn to_offsets(&self) -> (o: [u16; 7])
        ensures
            o@ == self.offsets(),
            parameters_of(o@) == *self,
    {
        let o = [
            self.domain.start_a,
            self.domain.start_b,
            self.domain.start_c,
            self.checksum,
            self.domain.extent_a,
            self.domain.extent_b,
            self.domain.extent_c,
        ];
        assert(o@ =~= self.offsets());
        o
    }

    /// Decodes the seven numbers of `to_offsets`.
    pub fn from_offsets(o: &[u16; 7]) -> (p: Self)
        ensures
            p == parameters_of(o@),
            p.offsets() == o@,
    {
        let p = BatchParameters {
            domain: IterationDomain {
                start_a: o[0],
                start_b: o[1],
                start_c: o[2],
                extent_a: o[4],
                extent_b: o[5],
                extent_c: o[6],
            },
            checksum: o[3],
        };
        assert(p.offsets() =~= o@);
        p
    }

    /// Tests whether a block can be written for these parameters.
    pub fn is_printable(&self) -> (ok: bool)
        ensures
            ok == self.printable(),
    {
        self.checksum < CHECKSUM_SPACE && self.domain.fits()
    }
}

} // verus!
