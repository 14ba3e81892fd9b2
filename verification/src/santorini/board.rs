//! The bit-packed board.
//!
//! A `Board` stores one one-hot 4-bit field per cell in two 64-bit words:
//! bit 0 of a field set means the cell is at ground level, bit 1 means one
//! level built, bit 2 two levels, bit 3 three levels, and an all-zero field
//! means the cell is capped.  The encoding makes "is this cell at height at
//! most L" a single masked test.

use vstd::prelude::*;

use crate::santorini::point::Point;

verus! {

/// The height of one cell, from the ground up to the dome that caps a
/// finished tower.
#[derive(Debug, PartialEq, Eq, Copy, Clone, Structural, Hash, PartialOrd, Ord)]
pub enum CoordLevel {
    Ground,
    One,
    Two,
    Three,
    Capped,
}

impl CoordLevel {
    pub open spec fn as_int(self) -> int {
        match self {
            CoordLevel::Ground => 0,
            CoordLevel::One => 1,
            CoordLevel::Two => 2,
            CoordLevel::Three => 3,
            CoordLevel::Capped => 4,
        }
    }

    pub open spec fn from_int(h: int) -> CoordLevel {
        if h == 0 {
            CoordLevel::Ground
        } else if h == 1 {
            CoordLevel::One
        } else if h == 2 {
            CoordLevel::Two
        } else if h == 3 {
            CoordLevel::Three
        } else {
            CoordLevel::Capped
        }
    }

    /// The height as a plain number, 0 for `Ground` through 4 for `Capped`.
    pub fn height(&self) -> (r: i8)
        ensures
            r == self.as_int(),
    {
        match self {
            CoordLevel::Ground => 0,
            CoordLevel::One => 1,
            CoordLevel::Two => 2,
            CoordLevel::Three => 3,
            CoordLevel::Capped => 4,
        }
    }
}

/// The one-hot 4-bit field decoded as a height: `0b0001` is ground, `0b0010`
/// one, `0b0100` two, `0b1000` three, and `0b0000` a capped cell.
pub open spec fn level_num(b: u64) -> int {
    if b == 1 {
        0
    } else if b == 2 {
        1
    } else if b == 4 {
        2
    } else if b == 8 {
        3
    } else {
        4
    }
}

/// The 5x5 grid of cell heights, two 64-bit words of sixteen 4-bit fields
/// each (25 of the 32 fields address real cells).
#[derive(Debug, PartialEq, Eq, Clone, Copy, Structural, Hash)]
pub struct Board {
    grid0: u64,
    grid1: u64,
}

impl Board {
    /// The 4-bit field of the cell with row-major offset `off`.
    pub closed spec fn nib(self, off: int) -> u64 {
        if off < 16 {
            (self.grid0 >> ((4 * off) as u64)) & 0xF
        } else {
            (self.grid1 >> ((4 * (off - 16)) as u64)) & 0xF
        }
    }

    /// The cell's field is one-hot or all zero.
    pub open spec fn cell_ok(self, off: int) -> bool {
        let b = self.nib(off);
        b == 1 || b == 2 || b == 4 || b == 8 || b == 0
    }

    /// Every real cell holds a well-formed field.
    pub open spec fn wf(self) -> bool {
        forall|off: int| 0 <= off < 25 ==> #[trigger] self.cell_ok(off)
    }

    /// The height of the cell with offset `off`, in `[0, 4]`.
    pub open spec fn height_at(self, off: int) -> int {
        level_num(self.nib(off))
    }

    /// The board with one more level built on the cell with offset `off`.
    pub closed spec fn spec_build(self, off: int) -> Board {
        let b = self.nib(off);
        let m: u64 = if b == 1 {
            3
        } else if b == 2 {
            6
        } else if b == 4 {
            12
        } else {
            8
        };
        if off < 16 {
            Board { grid0: self.grid0 ^ (m << ((4 * off) as u64)), grid1: self.grid1 }
        } else {
            Board { grid0: self.grid0, grid1: self.grid1 ^ (m << ((4 * (off - 16)) as u64)) }
        }
    }

    /// The board with the cell at offset `off` capped.
    pub closed spec fn spec_cap(self, off: int) -> Board {
        if off < 16 {
            Board { grid0: self.grid0 & !(0xFu64 << ((4 * off) as u64)), grid1: self.grid1 }
        } else {
            Board { grid0: self.grid0, grid1: self.grid1 & !(0xFu64 << ((4 * (off - 16)) as u64)) }
        }
    }

    /// A fresh board: every cell at ground level.
    pub fn new() -> (r: Board)
        ensures
            r.wf(),
            forall|off: int| 0 <= off < 25 ==> #[trigger] r.height_at(off) == 0,
    {
        let r = Board { grid0: 0x1111_1111_1111_1111u64, grid1: 0x1111_1111_1111_1111u64 };
        proof {
            assert forall|off: int| 0 <= off < 25 implies #[trigger] r.nib(off) == 1 by {
                if off < 16 {
                    let s = (4 * off) as u64;
                    assert(s <= 60 && s % 4 == 0);
                    assert((0x1111_1111_1111_1111u64 >> s) & 0xF == 1) by (bit_vector)
                        requires
                            s <= 60 && s % 4 == 0,
                    ;
                } else {
                    let s = (4 * (off - 16)) as u64;
                    assert(s <= 60 && s % 4 == 0);
                    assert((0x1111_1111_1111_1111u64 >> s) & 0xF == 1) by (bit_vector)
                        requires
                            s <= 60 && s % 4 == 0,
                    ;
                }
            }
            assert forall|off: int| 0 <= off < 25 implies #[trigger] r.cell_ok(off) by {
                assert(r.nib(off) == 1);
            }
        }
        r
    }

    /// Decode the height of the cell under `loc`.
    pub fn level_at(&self, loc: Point) -> (r: CoordLevel)
        requires
            self.wf(),
        ensures
            r.as_int() == self.height_at(loc.offset()),
            r == CoordLevel::from_int(self.height_at(loc.offset())),
    {
        proof {
            use_type_invariant(loc);
            self.lemma_nib_word(loc);
            assert(self.cell_ok(loc.offset()));
        }
        let w: u64 = if loc.word == 0 {
            self.grid0
        } else {
            self.grid1
        };
        let data = (w >> (loc.nibble as u64)) & 0xF;
        match data {
            1 => CoordLevel::Ground,
            2 => CoordLevel::One,
            4 => CoordLevel::Two,
            8 => CoordLevel::Three,
            0 => CoordLevel::Capped,
            _ => unreached(),
        }
    }

    /// Test whether the cell under `loc` is at height `level` or below, with
    /// a single masked lookup.
    pub fn less_than_equals(&self, loc: Point, level: CoordLevel) -> (r: bool)
        requires
            self.wf(),
        ensures
            r == (self.height_at(loc.offset()) <= level.as_int()),
    {
        let mask: u64 = match level {
            CoordLevel::Ground => 0b0001,
            CoordLevel::One => 0b0011,
            CoordLevel::Two => 0b0111,
            CoordLevel::Three => 0b1111,
            CoordLevel::Capped => {
                return true;
            },
        };
        proof {
            use_type_invariant(loc);
            self.lemma_nib_word(loc);
            assert(self.cell_ok(loc.offset()));
        }
        let w: u64 = if loc.word == 0 {
            self.grid0
        } else {
            self.grid1
        };
        let sh: u64 = loc.nibble as u64;
        let r = w & (mask << sh) != 0;
        proof {
            lemma_mask_test(w, sh, mask);
        }
        r
    }

    /// Raise the cell under `loc` by one level; building on a cell at height
    /// three caps it.
    pub fn build(&mut self, loc: Point)
        requires
            old(self).wf(),
            old(self).height_at(loc.offset()) < 4,
        ensures
            *final(self) == old(self).spec_build(loc.offset()),
            final(self).wf(),
            final(self).height_at(loc.offset()) == old(self).height_at(loc.offset()) + 1,
            forall|off: int|
                0 <= off < 25 && off != loc.offset() ==> #[trigger] final(self).height_at(off)
                    == old(self).height_at(off),
    {
        proof {
            use_type_invariant(loc);
            old(self).lemma_nib_word(loc);
            assert(old(self).cell_ok(loc.offset()));
        }
        let sh: u64 = loc.nibble as u64;
        let w: u64 = if loc.word == 0 {
            self.grid0
        } else {
            self.grid1
        };
        let lvl = (w >> sh) & 0xF;
        let m: u64 = match lvl {
            1 => 3,
            2 => 6,
            4 => 12,
            8 => 8,
            _ => unreached(),
        };
        let nw = w ^ (m << sh);
        if loc.word == 0 {
            self.grid0 = nw;
        } else {
            self.grid1 = nw;
        }
        proof {
            let off = loc.offset();
            lemma_xor_build(w, sh, m);
            self.lemma_nib_word(loc);
            assert(self.nib(off) == ((w ^ (m << sh)) >> sh) & 0xF);
            assert forall|off2: int|
                0 <= off2 < 25 && off2 != off implies #[trigger] self.nib(off2) == old(
                self,
            ).nib(off2) by {
                lemma_offset_shifts(*old(self), *self, loc, off2, w, nw);
                if (off2 < 16) == (off < 16) {
                    let t = if off2 < 16 {
                        (4 * off2) as u64
                    } else {
                        (4 * (off2 - 16)) as u64
                    };
                    lemma_xor_frame(w, sh, t, m);
                }
            }
            assert forall|off2: int| 0 <= off2 < 25 implies #[trigger] self.cell_ok(off2) by {
                if off2 != off {
                    assert(old(self).cell_ok(off2));
                }
            }
        }
    }

    /// Cap the cell under `loc` outright, whatever its height.
    pub fn cap(&mut self, loc: Point)
        requires
            old(self).wf(),
        ensures
            *final(self) == old(self).spec_cap(loc.offset()),
            final(self).wf(),
            final(self).height_at(loc.offset()) == 4,
            forall|off: int|
                0 <= off < 25 && off != loc.offset() ==> #[trigger] final(self).height_at(off)
                    == old(self).height_at(off),
    {
        proof {
            use_type_invariant(loc);
            old(self).lemma_nib_word(loc);
        }
        let sh: u64 = loc.nibble as u64;
        let w: u64 = if loc.word == 0 {
            self.grid0
        } else {
            self.grid1
        };
        let nw = w & !(0xFu64 << sh);
        if loc.word == 0 {
            self.grid0 = nw;
        } else {
            self.grid1 = nw;
        }
        proof {
            let off = loc.offset();
            lemma_and_cap(w, sh);
            self.lemma_nib_word(loc);
            assert(self.nib(off) == ((w & !(0xFu64 << sh)) >> sh) & 0xF);
            assert forall|off2: int|
                0 <= off2 < 25 && off2 != off implies #[trigger] self.nib(off2) == old(
                self,
            ).nib(off2) by {
                lemma_offset_shifts(*old(self), *self, loc, off2, w, nw);
                if (off2 < 16) == (off < 16) {
                    let t = if off2 < 16 {
                        (4 * off2) as u64
                    } else {
                        (4 * (off2 - 16)) as u64
                    };
                    lemma_and_frame(w, sh, t);
                }
            }
            assert forall|off2: int| 0 <= off2 < 25 implies #[trigger] self.cell_ok(off2) by {
                if off2 != off {
                    assert(old(self).cell_ok(off2));
                }
            }
        }
    }

    /// The exec-side word and shift of a point agree with the spec-side
    /// decomposition of its offset.
    proof fn lemma_nib_word(self, loc: Point)
        requires
            loc.inv(),
        ensures
            loc.word <= 1,
            loc.nibble <= 60,
            0 <= loc.offset() < 25,
            loc.word == 0 ==> loc.offset() < 16 && (4 * loc.offset()) as u64 == loc.nibble as u64,
            loc.word == 1 ==> loc.offset() >= 16 && (4 * (loc.offset() - 16)) as u64
                == loc.nibble as u64,
            loc.word == 0 ==> self.nib(loc.offset()) == (self.grid0 >> (loc.nibble as u64)) & 0xF,
            loc.word == 1 ==> self.nib(loc.offset()) == (self.grid1 >> (loc.nibble as u64)) & 0xF,
    {
        crate::santorini::point::lemma_point_fields(loc);
    }
}

/// The heights of the first `k` cells added up.
pub open spec fn sum_heights(b: Board, k: int) -> int
    decreases k,
{
    if k <= 0 {
        0
    } else {
        sum_heights(b, k - 1) + b.height_at(k - 1)
    }
}

/// How much has been built on the whole board; it grows by one with every
/// build, and a full board of capped towers holds 100 levels.
pub open spec fn total_height(b: Board) -> int {
    sum_heights(b, 25)
}

proof fn lemma_sum_bound(b: Board, k: int)
    requires
        0 <= k,
    ensures
        0 <= sum_heights(b, k) <= 4 * k,
    decreases k,
{
    if k > 0 {
        lemma_sum_bound(b, k - 1);
    }
}

/// No board holds fewer than zero or more than 100 levels.
pub proof fn lemma_total_height_bound(b: Board)
    ensures
        0 <= total_height(b) <= 100,
{
    lemma_sum_bound(b, 25);
}

proof fn lemma_sum_build(b1: Board, b2: Board, off: int, k: int)
    requires
        0 <= off < 25,
        0 <= k <= 25,
        b2.height_at(off) == b1.height_at(off) + 1,
        forall|o: int| 0 <= o < 25 && o != off ==> #[trigger] b2.height_at(o) == b1.height_at(o),
    ensures
        sum_heights(b2, k) == sum_heights(b1, k) + if off < k {
            1int
        } else {
            0int
        },
    decreases k,
{
    if k > 0 {
        lemma_sum_build(b1, b2, off, k - 1);
    }
}

/// Raising one cell by one raises the whole board's total by one.
pub proof fn lemma_total_height_build(b1: Board, b2: Board, off: int)
    requires
        0 <= off < 25,
        b2.height_at(off) == b1.height_at(off) + 1,
        forall|o: int| 0 <= o < 25 && o != off ==> #[trigger] b2.height_at(o) == b1.height_at(o),
    ensures
        total_height(b2) == total_height(b1) + 1,
{
    lemma_sum_build(b1, b2, off, 25);
}

/// What `spec_build` does to the heights, cell by cell.
pub proof fn lemma_board_spec_build(b: Board, loc: Point)
    requires
        b.wf(),
        loc.inv(),
        b.height_at(loc.offset()) < 4,
    ensures
        b.spec_build(loc.offset()).wf(),
        b.spec_build(loc.offset()).height_at(loc.offset()) == b.height_at(loc.offset()) + 1,
        forall|off: int|
            0 <= off < 25 && off != loc.offset() ==> #[trigger] b.spec_build(
                loc.offset(),
            ).height_at(off) == b.height_at(off),
{
    b.lemma_nib_word(loc);
    assert(b.cell_ok(loc.offset()));
    let off = loc.offset();
    let b1 = b.spec_build(off);
    let sh: u64 = loc.nibble as u64;
    let w: u64 = if loc.word == 0 {
        b.grid0
    } else {
        b.grid1
    };
    let lvl = (w >> sh) & 0xF;
    let m: u64 = if lvl == 1 {
        3
    } else if lvl == 2 {
        6
    } else if lvl == 4 {
        12
    } else {
        8
    };
    let nw = w ^ (m << sh);
    assert(if loc.word == 0 {
        b1.grid0 == nw && b1.grid1 == b.grid1
    } else {
        b1.grid1 == nw && b1.grid0 == b.grid0
    });
    lemma_xor_build(w, sh, m);
    b1.lemma_nib_word(loc);
    assert(b1.nib(off) == ((w ^ (m << sh)) >> sh) & 0xF);
    assert forall|off2: int| 0 <= off2 < 25 && off2 != off implies #[trigger] b1.nib(off2) == b.nib(
        off2,
    ) by {
        lemma_offset_shifts(b, b1, loc, off2, w, nw);
        if (off2 < 16) == (off < 16) {
            let t = if off2 < 16 {
                (4 * off2) as u64
            } else {
                (4 * (off2 - 16)) as u64
            };
            lemma_xor_frame(w, sh, t, m);
        }
    }
    assert forall|off2: int| 0 <= off2 < 25 implies #[trigger] b1.cell_ok(off2) by {
        if off2 != off {
            assert(b.cell_ok(off2));
        }
    }
}

/// Both words of two boards that differ by one in-place word update decode
/// the untouched word identically.
proof fn lemma_offset_shifts(b0: Board, b1: Board, loc: Point, off2: int, w: u64, nw: u64)
    requires
        loc.inv(),
        0 <= off2 < 25,
        off2 != loc.offset(),
        loc.word == 0 ==> w == b0.grid0 && b1.grid0 == nw && b1.grid1 == b0.grid1,
        loc.word == 1 ==> w == b0.grid1 && b1.grid1 == nw && b1.grid0 == b0.grid0,
    ensures
        (off2 < 16) != (loc.offset() < 16) ==> b1.nib(off2) == b0.nib(off2),
        ((off2 < 16) == (loc.offset() < 16) && off2 < 16) ==> b0.nib(off2) == (w >> ((4
            * off2) as u64)) & 0xF && b1.nib(off2) == (nw >> ((4 * off2) as u64)) & 0xF,
        ((off2 < 16) == (loc.offset() < 16) && off2 >= 16) ==> b0.nib(off2) == (w >> ((4 * (off2
            - 16)) as u64)) & 0xF && b1.nib(off2) == (nw >> ((4 * (off2 - 16)) as u64)) & 0xF,
        (off2 < 16) == (loc.offset() < 16) ==> (if off2 < 16 {
            (4 * off2) as u64
        } else {
            (4 * (off2 - 16)) as u64
        }) != loc.nibble as u64,
{
    crate::santorini::point::lemma_point_fields(loc);
}

proof fn lemma_mask_test(w: u64, s: u64, m: u64)
    by (bit_vector)
    requires
        s <= 60,
        s % 4 == 0,
        m == 1 || m == 3 || m == 7 || m == 15,
        ((w >> s) & 0xF) == 0 || ((w >> s) & 0xF) == 1 || ((w >> s) & 0xF) == 2 || ((w >> s) & 0xF)
            == 4 || ((w >> s) & 0xF) == 8,
    ensures
        m == 1 ==> ((w & (m << s) != 0) <==> ((w >> s) & 0xF) == 1),
        m == 3 ==> ((w & (m << s) != 0) <==> (((w >> s) & 0xF) == 1 || ((w >> s) & 0xF) == 2)),
        m == 7 ==> ((w & (m << s) != 0) <==> (((w >> s) & 0xF) == 1 || ((w >> s) & 0xF) == 2 || ((w
            >> s) & 0xF) == 4)),
        m == 15 ==> ((w & (m << s) != 0) <==> ((w >> s) & 0xF) != 0),
{
}

proof fn lemma_xor_build(w: u64, s: u64, m: u64)
    by (bit_vector)
    requires
        s <= 60,
        s % 4 == 0,
        (((w >> s) & 0xF) == 1 && m == 3) || (((w >> s) & 0xF) == 2 && m == 6) || (((w >> s) & 0xF)
            == 4 && m == 12) || (((w >> s) & 0xF) == 8 && m == 8),
    ensures
        ((w >> s) & 0xF) == 1 ==> ((w ^ (m << s)) >> s) & 0xF == 2,
        ((w >> s) & 0xF) == 2 ==> ((w ^ (m << s)) >> s) & 0xF == 4,
        ((w >> s) & 0xF) == 4 ==> ((w ^ (m << s)) >> s) & 0xF == 8,
        ((w >> s) & 0xF) == 8 ==> ((w ^ (m << s)) >> s) & 0xF == 0,
{
}

proof fn lemma_xor_frame(w: u64, s: u64, t: u64, m: u64)
    by (bit_vector)
    requires
        s <= 60,
        t <= 60,
        s % 4 == 0,
        t % 4 == 0,
        s != t,
        m <= 15,
    ensures
        ((w ^ (m << s)) >> t) & 0xF == (w >> t) & 0xF,
{
}

proof fn lemma_and_cap(w: u64, s: u64)
    by (bit_vector)
    requires
        s <= 60,
        s % 4 == 0,
    ensures
        ((w & !(0xFu64 << s)) >> s) & 0xF == 0,
{
}

proof fn lemma_and_frame(w: u64, s: u64, t: u64)
    by (bit_vector)
    requires
        s <= 60,
        t <= 60,
        s % 4 == 0,
        t % 4 == 0,
        s != t,
    ensures
        ((w & !(0xFu64 << s)) >> t) & 0xF == (w >> t) & 0xF,
{
}

} // verus!
