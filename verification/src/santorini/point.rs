//! Grid coordinates and the packed cell encoding.
//!
//! A `Point` names one cell of the 5x5 board.  It is stored as the pair
//! `(word, nibble)` that locates the cell's 4-bit field inside the two 64-bit
//! words of a [`crate::santorini::board::Board`]: the cell with row-major
//! offset `o` (so `o == 5 * y + x`) lives at word `o / 16`, bit `4 * (o % 16)`.

use vstd::prelude::*;

verus! {

/// One board coordinate.  Valid columns and rows lie in `[0, BOARD_WIDTH)`.
#[derive(Debug, Clone, Copy, PartialEq, Eq, Structural, Hash, PartialOrd, Ord)]
pub struct Coord(pub i8);

pub const BOARD_WIDTH: i8 = 5;

pub const BOARD_HEIGHT: i8 = 5;

impl From<i8> for Coord {
    fn from(v: i8) -> (r: Coord) {
        Coord(v)
    }
}

impl vstd::std_specs::convert::FromSpecImpl<i8> for Coord {
    open spec fn obeys_from_spec() -> bool {
        true
    }

    open spec fn from_spec(v: i8) -> Coord {
        Coord(v)
    }
}

/// A cell of the board, encoded as the position of its 4-bit field: the word
/// (0 or 1) and the bit offset of the field inside that word (a multiple of 4).
#[derive(Debug, Clone, Copy, PartialEq, Eq, Structural, Hash)]
pub struct Point {
    pub(crate) word: u8,
    pub(crate) nibble: u8,
}

pub open spec fn abs_of(v: int) -> int {
    if v < 0 {
        -v
    } else {
        v
    }
}

impl Point {
    /// Every `Point` built by this crate addresses one of the 25 real cells.
    #[verifier::type_invariant]
    pub closed spec fn inv(self) -> bool {
        &&& self.word <= 1
        &&& self.nibble <= 60
        &&& self.nibble % 4 == 0
        &&& self.word * 16 + self.nibble / 4 < 25
    }

    /// The row-major cell offset in `[0, 25)`: `offset == 5 * y + x`.
    pub closed spec fn offset(self) -> int {
        self.word * 16 + self.nibble / 4
    }

    pub open spec fn x_spec(self) -> int {
        self.offset() % 5
    }

    pub open spec fn y_spec(self) -> int {
        self.offset() / 5
    }

    /// The point addressing the cell `(x, y)`, if that cell is on the board.
    pub closed spec fn new_point(x: int, y: int) -> Option<Point> {
        if 0 <= x < BOARD_WIDTH && 0 <= y < BOARD_HEIGHT {
            let off = 5 * y + x;
            Some(Point { word: (off / 16) as u8, nibble: (4 * (off % 16)) as u8 })
        } else {
            None
        }
    }

    /// Chebyshev distance on the grid.
    pub open spec fn spec_distance(self, other: Point) -> int {
        let dx = abs_of(other.x_spec() - self.x_spec());
        let dy = abs_of(other.y_spec() - self.y_spec());
        if dx >= dy {
            dx
        } else {
            dy
        }
    }

    /// Manhattan distance on the grid.
    pub open spec fn spec_taxicab(self, other: Point) -> int {
        abs_of(other.x_spec() - self.x_spec()) + abs_of(other.y_spec() - self.y_spec())
    }

    pub fn x(&self) -> (r: Coord)
        ensures
            r.0 == self.x_spec(),
            0 <= r.0 < 5,
    {
        proof {
            use_type_invariant(*self);
        }
        let off: u8 = self.word * 16 + self.nibble / 4;
        Coord((off % 5) as i8)
    }

    pub fn y(&self) -> (r: Coord)
        ensures
            r.0 == self.y_spec(),
            0 <= r.0 < 5,
    {
        proof {
            use_type_invariant(*self);
        }
        let off: u8 = self.word * 16 + self.nibble / 4;
        Coord((off / 5) as i8)
    }

    /// Compute the Chebyshev (L-infinity) distance between the points.
    pub fn distance(&self, other: Point) -> (r: i8)
        ensures
            r == self.spec_distance(other),
            0 <= r < 5,
    {
        let x0 = self.x();
        let y0 = self.y();
        let x1 = other.x();
        let y1 = other.y();
        let dx: i8 = if x1.0 >= x0.0 {
            x1.0 - x0.0
        } else {
            x0.0 - x1.0
        };
        let dy: i8 = if y1.0 >= y0.0 {
            y1.0 - y0.0
        } else {
            y0.0 - y1.0
        };
        if dx >= dy {
            dx
        } else {
            dy
        }
    }

    /// Compute the taxicab (L1) distance between the points.
    pub fn taxicab(&self, other: Point) -> (r: i8)
        ensures
            r == self.spec_taxicab(other),
            0 <= r < 9,
    {
        let x0 = self.x();
        let y0 = self.y();
        let x1 = other.x();
        let y1 = other.y();
        let dx: i8 = if x1.0 >= x0.0 {
            x1.0 - x0.0
        } else {
            x0.0 - x1.0
        };
        let dy: i8 = if y1.0 >= y0.0 {
            y1.0 - y0.0
        } else {
            y0.0 - y1.0
        };
        dx + dy
    }

    /// Creates a new point, returning `None` if the given coordinates are out
    /// of bounds.
    pub fn new_(x: Coord, y: Coord) -> (r: Option<Point>)
        ensures
            r == Self::new_point(x.0 as int, y.0 as int),
    {
        if x.0 >= BOARD_WIDTH || x.0 < 0 || y.0 >= BOARD_HEIGHT || y.0 < 0 {
            None
        } else {
            let off: u8 = (BOARD_WIDTH * y.0 + x.0) as u8;
            Some(Point { word: off / 16, nibble: 4 * (off % 16) })
        }
    }

    /// Creates a new point from coordinates that are known to be in bounds.
    pub fn new(x: Coord, y: Coord) -> (r: Point)
        requires
            0 <= x.0 < 5,
            0 <= y.0 < 5,
        ensures
            Some(r) == Self::new_point(x.0 as int, y.0 as int),
            r.x_spec() == x.0,
            r.y_spec() == y.0,
    {
        proof {
            lemma_new_point_coords(x.0 as int, y.0 as int);
        }
        match Self::new_(x, y) {
            Some(p) => p,
            None => unreached(),
        }
    }
}

/// An in-bounds construction succeeds and addresses the requested cell.
pub proof fn lemma_new_point_coords(x: int, y: int)
    requires
        0 <= x < 5,
        0 <= y < 5,
    ensures
        Point::new_point(x, y) matches Some(p) && p.inv() && p.x_spec() == x && p.y_spec() == y
            && p.offset() == 5 * y + x,
{
    let off = 5 * y + x;
    let p = Point::new_point(x, y)->Some_0;
    assert(p.word == off / 16 && p.nibble == 4 * (off % 16));
    assert(p.offset() == off);
}

/// The at-most-one-element sequence holding the point for cell `(x, y)`.
pub open spec fn cand_at(x: int, y: int) -> Seq<Point> {
    match Point::new_point(x, y) {
        Some(q) => seq![q],
        None => Seq::<Point>::empty(),
    }
}

/// The in-bounds cells bordering `p`, in row-major order of the relative
/// offsets `(-1,-1), (0,-1), (1,-1), (-1,0), (1,0), (-1,1), (0,1), (1,1)`.
pub open spec fn neighbor_seq(p: Point) -> Seq<Point> {
    cand_at(p.x_spec() - 1, p.y_spec() - 1) + cand_at(p.x_spec(), p.y_spec() - 1) + cand_at(
        p.x_spec() + 1,
        p.y_spec() - 1,
    ) + cand_at(p.x_spec() - 1, p.y_spec()) + cand_at(p.x_spec() + 1, p.y_spec()) + cand_at(
        p.x_spec() - 1,
        p.y_spec() + 1,
    ) + cand_at(p.x_spec(), p.y_spec() + 1) + cand_at(p.x_spec() + 1, p.y_spec() + 1)
}

/// How a valid point's stored word and bit offset relate to its cell offset.
pub(crate) proof fn lemma_point_fields(p: Point)
    requires
        p.inv(),
    ensures
        p.word <= 1,
        p.nibble <= 60,
        p.nibble % 4 == 0,
        p.offset() == p.word * 16 + p.nibble / 4,
        p.nibble == 4 * (p.offset() - 16 * p.word),
        0 <= p.offset() < 25,
        (p.word == 0) <==> (p.offset() < 16),
{
    assert(p.nibble == 4 * (p.nibble / 4));
}

/// A point's offset lies in `[0, 25)` and decomposes as `5 * y + x`.
pub proof fn lemma_point_bounds(p: Point)
    requires
        p.inv(),
    ensures
        0 <= p.offset() < 25,
        0 <= p.x_spec() < 5,
        0 <= p.y_spec() < 5,
        p.offset() == 5 * p.y_spec() + p.x_spec(),
{
}

/// Two valid points with the same offset are the same point; so are two
/// valid points with the same coordinates.
pub proof fn lemma_point_injective(p: Point, q: Point)
    requires
        p.inv(),
        q.inv(),
        p.offset() == q.offset() || (p.x_spec() == q.x_spec() && p.y_spec() == q.y_spec()),
    ensures
        p == q,
{
    lemma_point_bounds(p);
    lemma_point_bounds(q);
    assert(p.offset() == q.offset());
    assert(p.word == q.word);
    assert(p.nibble / 4 == q.nibble / 4);
    assert(p.nibble == 4 * (p.nibble / 4) && q.nibble == 4 * (q.nibble / 4));
}

/// Rebuilding a valid point from its own coordinates gives the point back.
pub proof fn lemma_new_point_roundtrip(p: Point)
    requires
        p.inv(),
    ensures
        Point::new_point(p.x_spec(), p.y_spec()) == Some(p),
{
    lemma_point_bounds(p);
    lemma_new_point_coords(p.x_spec(), p.y_spec());
    let q = Point::new_point(p.x_spec(), p.y_spec())->Some_0;
    lemma_point_injective(p, q);
}

/// The Chebyshev distance never exceeds the taxicab distance, which in turn
/// never exceeds twice the Chebyshev distance.
pub proof fn lemma_distance_taxicab(p: Point, q: Point)
    ensures
        p.spec_distance(q) <= p.spec_taxicab(q),
        p.spec_taxicab(q) <= 2 * p.spec_distance(q),
{
}

proof fn lemma_cand_elem(x: int, y: int)
    ensures
        cand_at(x, y).len() <= 1,
        cand_at(x, y).len() == 1 ==> cand_at(x, y)[0].inv() && cand_at(x, y)[0].x_spec() == x
            && cand_at(x, y)[0].y_spec() == y && cand_at(x, y)[0].offset() == 5 * y + x,
        (0 <= x < 5 && 0 <= y < 5) ==> cand_at(x, y).len() == 1,
{
    if 0 <= x < 5 && 0 <= y < 5 {
        lemma_new_point_coords(x, y);
    }
}

/// All entries of `s` are valid neighbors of `p`.
pub open spec fn all_nbr_of(p: Point, s: Seq<Point>) -> bool {
    forall|i: int|
        0 <= i < s.len() ==> (#[trigger] s[i]).inv() && p.spec_distance(s[i]) == 1 && s[i] != p
}

/// All entries of `s` sit strictly before cell offset `b`.
pub open spec fn all_off_below(s: Seq<Point>, b: int) -> bool {
    forall|i: int| 0 <= i < s.len() ==> (#[trigger] s[i]).offset() < b
}

/// All entries of `s` sit at cell offset `b` or beyond.
pub open spec fn all_off_atleast(s: Seq<Point>, b: int) -> bool {
    forall|i: int| 0 <= i < s.len() ==> b <= (#[trigger] s[i]).offset()
}

/// The entries of `s` sit on strictly increasing cell offsets.
pub open spec fn sorted_off(s: Seq<Point>) -> bool {
    forall|i: int, j: int| 0 <= i < j < s.len() ==> s[i].offset() < s[j].offset()
}

proof fn lemma_nbr_append(p: Point, s: Seq<Point>, t: Seq<Point>)
    requires
        all_nbr_of(p, s),
        all_nbr_of(p, t),
    ensures
        all_nbr_of(p, s + t),
{
    assert forall|i: int|
        0 <= i < (s + t).len() implies (#[trigger] (s + t)[i]).inv() && p.spec_distance(
        (s + t)[i],
    ) == 1 && (s + t)[i] != p by {
        if i < s.len() {
            assert((s + t)[i] == s[i]);
        } else {
            assert((s + t)[i] == t[i - s.len()]);
        }
    }
}

proof fn lemma_sorted_append(s: Seq<Point>, t: Seq<Point>, b: int)
    requires
        sorted_off(s),
        sorted_off(t),
        all_off_below(s, b),
        all_off_atleast(t, b),
    ensures
        sorted_off(s + t),
{
    assert forall|i: int, j: int|
        0 <= i < j < (s + t).len() implies (s + t)[i].offset() < (s + t)[j].offset() by {
        if j < s.len() {
            assert((s + t)[i] == s[i] && (s + t)[j] == s[j]);
        } else if i >= s.len() {
            assert((s + t)[i] == t[i - s.len()] && (s + t)[j] == t[j - s.len()]);
        } else {
            assert((s + t)[i] == s[i] && (s + t)[j] == t[j - s.len()]);
        }
    }
}

/// The entries of `neighbor_seq(p)` are valid points exactly one step away
/// from `p`.
#[verifier::rlimit(50)]
pub proof fn lemma_neighbor_nbr(p: Point)
    requires
        p.inv(),
    ensures
        neighbor_seq(p).len() <= 8,
        all_nbr_of(p, neighbor_seq(p)),
{
    lemma_point_bounds(p);
    let x = p.x_spec();
    let y = p.y_spec();
    let c0 = cand_at(x - 1, y - 1);
    let c1 = cand_at(x, y - 1);
    let c2 = cand_at(x + 1, y - 1);
    let c3 = cand_at(x - 1, y);
    let c4 = cand_at(x + 1, y);
    let c5 = cand_at(x - 1, y + 1);
    let c6 = cand_at(x, y + 1);
    let c7 = cand_at(x + 1, y + 1);
    lemma_cand_elem(x - 1, y - 1);
    lemma_cand_elem(x, y - 1);
    lemma_cand_elem(x + 1, y - 1);
    lemma_cand_elem(x - 1, y);
    lemma_cand_elem(x + 1, y);
    lemma_cand_elem(x - 1, y + 1);
    lemma_cand_elem(x, y + 1);
    lemma_cand_elem(x + 1, y + 1);
    lemma_nbr_append(p, c0, c1);
    lemma_nbr_append(p, c0 + c1, c2);
    lemma_nbr_append(p, c0 + c1 + c2, c3);
    lemma_nbr_append(p, c0 + c1 + c2 + c3, c4);
    lemma_nbr_append(p, c0 + c1 + c2 + c3 + c4, c5);
    lemma_nbr_append(p, c0 + c1 + c2 + c3 + c4 + c5, c6);
    lemma_nbr_append(p, c0 + c1 + c2 + c3 + c4 + c5 + c6, c7);
}

/// The entries of `neighbor_seq(p)` sit on strictly increasing cell offsets,
/// so no entry repeats.
#[verifier::rlimit(50)]
pub proof fn lemma_neighbor_sorted(p: Point)
    requires
        p.inv(),
    ensures
        sorted_off(neighbor_seq(p)),
        forall|i: int, j: int|
            0 <= i < j < neighbor_seq(p).len() ==> neighbor_seq(p)[i] != neighbor_seq(p)[j],
{
    lemma_point_bounds(p);
    let x = p.x_spec();
    let y = p.y_spec();
    let c0 = cand_at(x - 1, y - 1);
    let c1 = cand_at(x, y - 1);
    let c2 = cand_at(x + 1, y - 1);
    let c3 = cand_at(x - 1, y);
    let c4 = cand_at(x + 1, y);
    let c5 = cand_at(x - 1, y + 1);
    let c6 = cand_at(x, y + 1);
    let c7 = cand_at(x + 1, y + 1);
    lemma_cand_elem(x - 1, y - 1);
    lemma_cand_elem(x, y - 1);
    lemma_cand_elem(x + 1, y - 1);
    lemma_cand_elem(x - 1, y);
    lemma_cand_elem(x + 1, y);
    lemma_cand_elem(x - 1, y + 1);
    lemma_cand_elem(x, y + 1);
    lemma_cand_elem(x + 1, y + 1);
    lemma_sorted_append(c0, c1, 5 * (y - 1) + x);
    assert(all_off_below(c0 + c1, 5 * (y - 1) + x + 1));
    lemma_sorted_append(c0 + c1, c2, 5 * (y - 1) + x + 1);
    assert(all_off_below(c0 + c1 + c2, 5 * y + x - 1));
    lemma_sorted_append(c0 + c1 + c2, c3, 5 * y + x - 1);
    assert(all_off_below(c0 + c1 + c2 + c3, 5 * y + x + 1));
    lemma_sorted_append(c0 + c1 + c2 + c3, c4, 5 * y + x + 1);
    assert(all_off_below(c0 + c1 + c2 + c3 + c4, 5 * (y + 1) + x - 1));
    lemma_sorted_append(c0 + c1 + c2 + c3 + c4, c5, 5 * (y + 1) + x - 1);
    assert(all_off_below(c0 + c1 + c2 + c3 + c4 + c5, 5 * (y + 1) + x));
    lemma_sorted_append(c0 + c1 + c2 + c3 + c4 + c5, c6, 5 * (y + 1) + x);
    assert(all_off_below(c0 + c1 + c2 + c3 + c4 + c5 + c6, 5 * (y + 1) + x + 1));
    lemma_sorted_append(c0 + c1 + c2 + c3 + c4 + c5 + c6, c7, 5 * (y + 1) + x + 1);
    assert forall|i: int, j: int|
        0 <= i < j < neighbor_seq(p).len() implies neighbor_seq(p)[i] != neighbor_seq(p)[j] by {
        assert(neighbor_seq(p)[i].offset() < neighbor_seq(p)[j].offset());
    }
}

proof fn lemma_add_contains<T>(a: Seq<T>, b: Seq<T>, x: T)
    requires
        a.contains(x) || b.contains(x),
    ensures
        (a + b).contains(x),
{
    if a.contains(x) {
        let i = choose|i: int| 0 <= i < a.len() && a[i] == x;
        assert((a + b)[i] == x);
    } else {
        let i = choose|i: int| 0 <= i < b.len() && b[i] == x;
        assert((a + b)[a.len() + i] == x);
    }
}

/// Every valid point one step away from `p` occurs in `neighbor_seq(p)`.
pub proof fn lemma_neighbor_complete(p: Point, q: Point)
    requires
        p.inv(),
        q.inv(),
        p.spec_distance(q) == 1,
    ensures
        neighbor_seq(p).contains(q),
{
    lemma_point_bounds(p);
    lemma_point_bounds(q);
    lemma_new_point_roundtrip(q);
    let x = p.x_spec();
    let y = p.y_spec();
    let c0 = cand_at(x - 1, y - 1);
    let c1 = cand_at(x, y - 1);
    let c2 = cand_at(x + 1, y - 1);
    let c3 = cand_at(x - 1, y);
    let c4 = cand_at(x + 1, y);
    let c5 = cand_at(x - 1, y + 1);
    let c6 = cand_at(x, y + 1);
    let c7 = cand_at(x + 1, y + 1);
    assert(c0.contains(q) || c1.contains(q) || c2.contains(q) || c3.contains(q) || c4.contains(q)
        || c5.contains(q) || c6.contains(q) || c7.contains(q)) by {
        let dx = q.x_spec() - x;
        let dy = q.y_spec() - y;
        assert(-1 <= dx <= 1 && -1 <= dy <= 1 && !(dx == 0 && dy == 0));
        assert(cand_at(q.x_spec(), q.y_spec()) == seq![q]);
        assert(cand_at(q.x_spec(), q.y_spec())[0] == q);
    }
    if c0.contains(q) || c1.contains(q) {
        lemma_add_contains(c0, c1, q);
    }
    if (c0 + c1).contains(q) || c2.contains(q) {
        lemma_add_contains(c0 + c1, c2, q);
    }
    if (c0 + c1 + c2).contains(q) || c3.contains(q) {
        lemma_add_contains(c0 + c1 + c2, c3, q);
    }
    if (c0 + c1 + c2 + c3).contains(q) || c4.contains(q) {
        lemma_add_contains(c0 + c1 + c2 + c3, c4, q);
    }
    if (c0 + c1 + c2 + c3 + c4).contains(q) || c5.contains(q) {
        lemma_add_contains(c0 + c1 + c2 + c3 + c4, c5, q);
    }
    if (c0 + c1 + c2 + c3 + c4 + c5).contains(q) || c6.contains(q) {
        lemma_add_contains(c0 + c1 + c2 + c3 + c4 + c5, c6, q);
    }
    if (c0 + c1 + c2 + c3 + c4 + c5 + c6).contains(q) || c7.contains(q) {
        lemma_add_contains(c0 + c1 + c2 + c3 + c4 + c5 + c6, c7, q);
    }
}

} // verus!
