//! Hex-grid coordinates: odd-row offset form `(x, y)` kept in sync with cube
//! form `(q, r, s)`, plus distances and neighbourhoods.

use vstd::prelude::*;

verus! {

/// Largest magnitude accepted for an offset coordinate; it keeps every
/// cube coordinate and every distance inside `i32`.
pub const COORD_LIMIT: i32 = 0x0400_0000;

/// Whether a value may stand as an offset coordinate.
pub open spec fn coord_ok(v: int) -> bool {
    -COORD_LIMIT <= v <= COORD_LIMIT
}

/// `floor(v / 2)`: Verus' division by a positive divisor rounds down.
pub open spec fn floor_half(v: int) -> int {
    v / 2
}

/// Cube coordinates `(q, r, s)` of the offset cell `(x, y)` (odd rows shifted).
pub open spec fn cube_of_offset(x: int, y: int) -> (int, int, int) {
    let q = x - floor_half(y);
    (q, y, -q - y)
}

/// Offset coordinates `(x, y)` of the cube cell `(q, r, _)`.
pub open spec fn offset_of_cube(q: int, r: int) -> (int, int) {
    (q + floor_half(r), r)
}

/// Absolute value of an integer.
pub open spec fn abs(v: int) -> int {
    if v < 0 {
        -v
    } else {
        v
    }
}

/// The `i`-th of the six unit cube directions, in a fixed order.
pub open spec fn direction(i: int) -> CubeVec {
    if i == 0 {
        CubeVec { q: 1, r: -1i32, s: 0 }
    } else if i == 1 {
        CubeVec { q: 1, r: 0, s: -1i32 }
    } else if i == 2 {
        CubeVec { q: 0, r: 1, s: -1i32 }
    } else if i == 3 {
        CubeVec { q: -1i32, r: 1, s: 0 }
    } else if i == 4 {
        CubeVec { q: -1i32, r: 0, s: 1 }
    } else {
        CubeVec { q: 0, r: -1i32, s: 1 }
    }
}

/// Hex distance: the number of unit steps between two cells, that is half the
/// Manhattan distance between their cube coordinates.
pub open spec fn distance(a: HexMapPosition, b: HexMapPosition) -> int {
    let dq = b.q - a.q;
    let dr = b.r - a.r;
    (abs(dq) + abs(dr) + abs(dq + dr)) / 2
}

/// The cell one step from `p` in direction `i`.
pub open spec fn neighbour(p: HexMapPosition, i: int) -> HexMapPosition {
    let q = p.q + direction(i).q;
    let r = p.r + direction(i).r;
    HexMapPosition {
        x: (q + floor_half(r)) as i32,
        y: r as i32,
        q: q as i32,
        r: r as i32,
        s: (-q - r) as i32,
    }
}

/// The six cells around `p`, in direction order.
pub open spec fn neighbours(p: HexMapPosition) -> Seq<HexMapPosition> {
    Seq::new(6, |i: int| neighbour(p, i))
}

/// `n` is the cell one step from `p` in direction `i`.
pub open spec fn is_neighbour_at(p: HexMapPosition, n: HexMapPosition, i: int) -> bool {
    &&& n.wf()
    &&& n.q == p.q + direction(i).q
    &&& n.r == p.r + direction(i).r
}

/// The cell at offset `(x, y)`.
pub open spec fn cell_at(x: int, y: int) -> HexMapPosition {
    let q = x - floor_half(y);
    HexMapPosition { x: x as i32, y: y as i32, q: q as i32, r: y as i32, s: (-q - y) as i32 }
}

/// A cube-space displacement (one of the six unit directions, or any sum of them).
#[derive(Clone, Copy, Debug, PartialEq, Eq, Structural, Hash)]
pub struct CubeVec {
    pub q: i32,
    pub r: i32,
    pub s: i32,
}

/// A hex-grid cell, addressed both by offset `(x, y)` and cube `(q, r, s)`.
#[derive(Clone, Copy, Debug, PartialEq, Eq, Structural, Hash)]
pub struct HexMapPosition {
    pub x: i32,
    pub y: i32,
    pub q: i32,
    pub r: i32,
    pub s: i32,
}

impl HexMapPosition {
    /// The two forms agree and the offset pair is inside the coordinate limit.
    pub open spec fn wf(self) -> bool {
        &&& coord_ok(self.x as int)
        &&& coord_ok(self.y as int)
        &&& (self.q as int, self.r as int, self.s as int) == cube_of_offset(
            self.x as int,
            self.y as int,
        )
    }

    /// Whether the cell lies strictly inside the coordinate limit, so that
    /// every neighbour is a cell too.
    pub open spec fn interior(self) -> bool {
        -COORD_LIMIT < self.x < COORD_LIMIT && -COORD_LIMIT < self.y < COORD_LIMIT
    }

    /// Builds the cell at offset `(x, y)`, deriving its cube coordinates.
    pub fn new(x: i32, y: i32) -> (r: HexMapPosition)
        requires
            coord_ok(x as int),
            coord_ok(y as int),
        ensures
            r.wf(),
            r.x == x,
            r.y == y,
            r == cell_at(x as int, y as int),
    {
        let q = x - floor_half_i32(y);
        HexMapPosition { x, y, q, r: y, s: -q - y }
    }

    /// The offset pair.
    pub fn to_vec2(&self) -> (r: (i32, i32))
        ensures
            r == (self.x, self.y),
    {
        (self.x, self.y)
    }

    /// The cube form as a vector.
    pub fn cube_coord(&self) -> (r: CubeVec)
        ensures
            r == (CubeVec { q: self.q, r: self.r, s: self.s }),
    {
        CubeVec { q: self.q, r: self.r, s: self.s }
    }

    /// Whether two cells are the same cell (same offset pair).
    pub fn same_cell(&self, other: &HexMapPosition) -> (r: bool)
        ensures
            r == (self.x == other.x && self.y == other.y),
    {
        self.x == other.x && self.y == other.y
    }

    /// Moves this cell by a cube displacement, re-deriving the offset form,
    /// and returns the new cell.
    pub fn add_cube_coord(&mut self, coord: &CubeVec) -> (r: HexMapPosition)
        requires
            old(self).wf(),
            coord.q + coord.r + coord.s == 0,
            coord_ok(old(self).r + coord.r),
            coord_ok(old(self).q + coord.q + floor_half(old(self).r + coord.r)),
        ensures
            r.wf(),
            *final(self) == r,
            r.q == old(self).q + coord.q,
            r.r == old(self).r + coord.r,
    {
        self.q = self.q + coord.q;
        self.r = self.r + coord.r;
        self.s = self.s + coord.s;
        self.x = self.q + floor_half_i32(self.r);
        self.y = self.r;
        *self
    }
}

/// The `i`-th unit cube direction.
pub fn cube_direction(i: usize) -> (r: CubeVec)
    requires
        i < 6,
    ensures
        r == direction(i as int),
{
    match i {
        0 => CubeVec { q: 1, r: -1, s: 0 },
        1 => CubeVec { q: 1, r: 0, s: -1 },
        2 => CubeVec { q: 0, r: 1, s: -1 },
        3 => CubeVec { q: -1, r: 1, s: 0 },
        4 => CubeVec { q: -1, r: 0, s: 1 },
        _ => CubeVec { q: 0, r: -1, s: 1 },
    }
}

/// The six cells around `pos`, one per unit direction, in direction order.
pub fn get_neighbours(pos: &HexMapPosition) -> (r: Vec<HexMapPosition>)
    requires
        pos.wf(),
        pos.interior(),
    ensures
        r@ == neighbours(*pos),
        forall|i: int| 0 <= i < 6 ==> is_neighbour_at(*pos, #[trigger] r@[i], i),
{
    let mut r: Vec<HexMapPosition> = Vec::new();
    let mut i: usize = 0;
    while i < 6
        invariant
            i <= 6,
            r@.len() == i,
            pos.wf(),
            pos.interior(),
            forall|j: int| 0 <= j < i ==> is_neighbour_at(*pos, #[trigger] r@[j], j),
            forall|j: int| 0 <= j < i ==> #[trigger] r@[j] == neighbour(*pos, j),
        decreases 6 - i,
    {
        let d = cube_direction(i);
        let mut n = *pos;
        n.add_cube_coord(&d);
        r.push(n);
        i = i + 1;
    }
    assert(r@ =~= neighbours(*pos));
    r
}

/// Hex distance between two cells.
pub fn hex_distance(a: &HexMapPosition, b: &HexMapPosition) -> (r: i32)
    requires
        a.wf(),
        b.wf(),
    ensures
        r as int == distance(*a, *b),
{
    let dq = b.q as i64 - a.q as i64;
    let dr = b.r as i64 - a.r as i64;
    let sum = abs_i64(dq) + abs_i64(dr) + abs_i64(dq + dr);
    (sum / 2) as i32
}

fn abs_i64(v: i64) -> (r: i64)
    requires
        v > i64::MIN,
    ensures
        r as int == abs(v as int),
{
    if v < 0 {
        -v
    } else {
        v
    }
}

/// Converting an offset cell to cube form and back gives the same offset
/// pair, and the cube coordinates always sum to zero.
pub proof fn lemma_offset_round_trip(x: int, y: int)
    ensures
        cube_of_offset(x, y).0 + cube_of_offset(x, y).1 + cube_of_offset(x, y).2 == 0,
        offset_of_cube(cube_of_offset(x, y).0, cube_of_offset(x, y).1) == (x, y),
{
}

/// The distance from a cell to itself is zero, distance is symmetric, and it
/// is zero only between a cell and itself.
pub proof fn lemma_distance_metric(a: HexMapPosition, b: HexMapPosition)
    requires
        a.wf(),
        b.wf(),
    ensures
        distance(a, a) == 0,
        distance(a, b) == distance(b, a),
        distance(a, b) >= 0,
        distance(a, b) == 0 <==> a == b,
{
}

/// A cell has exactly six neighbours, each at distance one from it.
pub proof fn lemma_neighbours_adjacent(p: HexMapPosition)
    requires
        p.wf(),
        p.interior(),
    ensures
        neighbours(p).len() == 6,
        forall|i: int| 0 <= i < 6 ==> #[trigger] neighbours(p)[i].wf() && distance(p, neighbours(p)[i]) == 1,
{
    assert forall|i: int| 0 <= i < 6 implies #[trigger] neighbours(p)[i].wf() && distance(p, neighbours(p)[i]) == 1 by {
        lemma_neighbour_wf(p, i);
        lemma_neighbour_distance(p, neighbour(p, i), i);
    }
}

/// The neighbour of an interior cell is a cell, given by its cube step.
pub proof fn lemma_neighbour_wf(p: HexMapPosition, i: int)
    requires
        p.wf(),
        p.interior(),
        0 <= i < 6,
    ensures
        is_neighbour_at(p, neighbour(p, i), i),
        -COORD_LIMIT <= neighbour(p, i).x <= COORD_LIMIT,
{
}

/// Every neighbour of a cell lies at distance one from it.
pub proof fn lemma_neighbour_distance(p: HexMapPosition, n: HexMapPosition, i: int)
    requires
        p.wf(),
        0 <= i < 6,
        is_neighbour_at(p, n, i),
    ensures
        distance(p, n) == 1,
        distance(n, p) == 1,
{
}

/// `floor(v / 2)` for a coordinate, computed with non-negative divisions only.
fn floor_half_i32(v: i32) -> (r: i32)
    requires
        -2 * COORD_LIMIT <= v <= 2 * COORD_LIMIT,
    ensures
        r as int == floor_half(v as int),
{
    if v >= 0 {
        v / 2
    } else {
        -((1 - v) / 2)
    }
}

} // verus!
