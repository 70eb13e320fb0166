use vstd::prelude::*;

verus! {

/// A position on the hexagonal grid in cube coordinates.
/// A well-formed position satisfies `q + r + s == 0`.
#[derive(Debug, Clone, Copy, Hash, PartialEq, Eq, Structural)]
pub struct Hex {
    pub q: i32,
    pub r: i32,
    pub s: i32,
}

impl View for Hex {
    type V = (int, int, int);

    open spec fn view(&self) -> (int, int, int) {
        (self.q as int, self.r as int, self.s as int)
    }
}

/// The six unit directions, in clockwise cyclic order.
#[derive(Debug, Clone, Copy, PartialEq, Eq, Structural)]
pub enum HexDirection {
    E,
    SE,
    SW,
    W,
    NW,
    NE,
}

/// The cube-coordinate invariant: the three components sum to zero.
pub open spec fn cube_wf(t: (int, int, int)) -> bool {
    t.0 + t.1 + t.2 == 0
}

pub open spec fn cube_add(a: (int, int, int), b: (int, int, int)) -> (int, int, int) {
    (a.0 + b.0, a.1 + b.1, a.2 + b.2)
}

pub open spec fn cube_sub(a: (int, int, int), b: (int, int, int)) -> (int, int, int) {
    (a.0 - b.0, a.1 - b.1, a.2 - b.2)
}

pub open spec fn cube_scale(a: (int, int, int), k: int) -> (int, int, int) {
    (a.0 * k, a.1 * k, a.2 * k)
}

/// The cube triple derived from axial coordinates.
pub open spec fn axial(q: int, r: int) -> (int, int, int) {
    (q, r, -q - r)
}

/// Whether all three components fit in an `i32`.
pub open spec fn cube_fits(t: (int, int, int)) -> bool {
    &&& i32::MIN <= t.0 <= i32::MAX
    &&& i32::MIN <= t.1 <= i32::MAX
    &&& i32::MIN <= t.2 <= i32::MAX
}

/// Whether all three components lie within `m` of zero.
pub open spec fn cube_within(t: (int, int, int), m: int) -> bool {
    &&& -m <= t.0 <= m
    &&& -m <= t.1 <= m
    &&& -m <= t.2 <= m
}

/// Scaling a bounded triple by a nonnegative factor scales its bound.
pub proof fn lemma_cube_scale_bound(t: (int, int, int), m: int, k: int)
    requires
        cube_within(t, m),
        0 <= k,
    ensures
        cube_within(cube_scale(t, k), m * k),
{
    assert(-(m * k) <= t.0 * k <= m * k && -(m * k) <= t.1 * k <= m * k && -(m * k) <= t.2 * k
        <= m * k) by (nonlinear_arith)
        requires
            -m <= t.0 <= m,
            -m <= t.1 <= m,
            -m <= t.2 <= m,
            0 <= k,
    ;
}

/// The unit delta of each direction, in the cyclic order
/// E, SE, SW, W, NW, NE.
pub open spec fn delta(d: HexDirection) -> (int, int, int) {
    match d {
        HexDirection::E => (1, 0, -1),
        HexDirection::SE => (1, -1, 0),
        HexDirection::SW => (0, -1, 1),
        HexDirection::W => (-1, 0, 1),
        HexDirection::NW => (-1, 1, 0),
        HexDirection::NE => (0, 1, -1),
    }
}

/// The position of a direction in the cyclic order.
pub open spec fn dir_index(d: HexDirection) -> int {
    match d {
        HexDirection::E => 0,
        HexDirection::SE => 1,
        HexDirection::SW => 2,
        HexDirection::W => 3,
        HexDirection::NW => 4,
        HexDirection::NE => 5,
    }
}

/// The direction at a position of the cyclic order.
pub open spec fn dir_at(i: int) -> HexDirection {
    if i == 0 {
        HexDirection::E
    } else if i == 1 {
        HexDirection::SE
    } else if i == 2 {
        HexDirection::SW
    } else if i == 3 {
        HexDirection::W
    } else if i == 4 {
        HexDirection::NW
    } else {
        HexDirection::NE
    }
}

/// The direction pointing the opposite way.
pub open spec fn opposite_dir(d: HexDirection) -> HexDirection {
    match d {
        HexDirection::E => HexDirection::W,
        HexDirection::SE => HexDirection::NW,
        HexDirection::SW => HexDirection::NE,
        HexDirection::W => HexDirection::E,
        HexDirection::NW => HexDirection::SE,
        HexDirection::NE => HexDirection::SW,
    }
}

/// The unique direction leading from `a` to `b`, if they are adjacent.
pub open spec fn dir_between(a: (int, int, int), b: (int, int, int)) -> Option<HexDirection> {
    let diff = cube_sub(b, a);
    if diff == delta(HexDirection::E) {
        Some(HexDirection::E)
    } else if diff == delta(HexDirection::SE) {
        Some(HexDirection::SE)
    } else if diff == delta(HexDirection::SW) {
        Some(HexDirection::SW)
    } else if diff == delta(HexDirection::W) {
        Some(HexDirection::W)
    } else if diff == delta(HexDirection::NW) {
        Some(HexDirection::NW)
    } else if diff == delta(HexDirection::NE) {
        Some(HexDirection::NE)
    } else {
        None
    }
}

impl Hex {
    /// Builds a position from a full cube triple; the triple must satisfy
    /// the cube invariant.
    pub fn from_cube(q: i32, r: i32, s: i32) -> (result: Hex)
        requires
            q + r + s == 0,
        ensures
            result@ == (q as int, r as int, s as int),
            cube_wf(result@),
    {
        Hex { q, r, s }
    }

    /// Builds a position from axial coordinates, deriving the third
    /// component.
    pub fn from_axial(q: i32, r: i32) -> (result: Hex)
        requires
            i32::MIN <= -(q as int) - (r as int) <= i32::MAX,
        ensures
            result@ == axial(q as int, r as int),
            cube_wf(result@),
    {
        let s: i32 = (-(q as i64) - (r as i64)) as i32;
        Hex { q, r, s }
    }

    /// Component-wise sum.
    pub fn add(self, rhs: Hex) -> (result: Hex)
        requires
            cube_fits(cube_add(self@, rhs@)),
        ensures
            result@ == cube_add(self@, rhs@),
    {
        Hex { q: self.q + rhs.q, r: self.r + rhs.r, s: self.s + rhs.s }
    }

    /// Component-wise difference.
    pub fn sub(self, rhs: Hex) -> (result: Hex)
        requires
            cube_fits(cube_sub(self@, rhs@)),
        ensures
            result@ == cube_sub(self@, rhs@),
    {
        Hex { q: self.q - rhs.q, r: self.r - rhs.r, s: self.s - rhs.s }
    }

    /// Component-wise scaling by an integer factor.
    pub fn scale(self, k: i32) -> (result: Hex)
        requires
            cube_fits(cube_scale(self@, k as int)),
        ensures
            result@ == cube_scale(self@, k as int),
    {
        Hex {
            q: ((self.q as i64) * (k as i64)) as i32,
            r: ((self.r as i64) * (k as i64)) as i32,
            s: ((self.s as i64) * (k as i64)) as i32,
        }
    }
}

impl HexDirection {
    /// The unit coordinate delta of this direction.
    pub fn to_hex(self) -> (result: Hex)
        ensures
            result@ == delta(self),
    {
        match self {
            HexDirection::E => Hex { q: 1, r: 0, s: -1 },
            HexDirection::SE => Hex { q: 1, r: -1, s: 0 },
            HexDirection::SW => Hex { q: 0, r: -1, s: 1 },
            HexDirection::W => Hex { q: -1, r: 0, s: 1 },
            HexDirection::NW => Hex { q: -1, r: 1, s: 0 },
            HexDirection::NE => Hex { q: 0, r: 1, s: -1 },
        }
    }

    /// The direction pointing the opposite way.
    pub fn opposite(&self) -> (result: HexDirection)
        ensures
            result == opposite_dir(*self),
    {
        match self {
            HexDirection::E => HexDirection::W,
            HexDirection::SE => HexDirection::NW,
            HexDirection::SW => HexDirection::NE,
            HexDirection::W => HexDirection::E,
            HexDirection::NW => HexDirection::SE,
            HexDirection::NE => HexDirection::SW,
        }
    }
}

/// Every direction sits at its own position of the cyclic order.
pub proof fn lemma_dir_at_index(d: HexDirection)
    ensures
        0 <= dir_index(d) < 6,
        dir_at(dir_index(d)) == d,
{
}

/// Opposite directions carry opposite deltas.
pub proof fn lemma_delta_opposite(d: HexDirection)
    ensures
        delta(opposite_dir(d)) == (-delta(d).0, -delta(d).1, -delta(d).2),
{
}

/// Taking the opposite twice returns the original direction.
pub proof fn lemma_opposite_involutive(d: HexDirection)
    ensures
        opposite_dir(opposite_dir(d)) == d,
{
}

/// Half of `r`, rounded up; the row adjustment of the offset encoding.
pub open spec fn half_up(r: int) -> int {
    (r + 1) / 2
}

/// The offset (column, row) pair encoding a cube position.
pub open spec fn offset_of_cube(t: (int, int, int)) -> (int, int) {
    (t.0 + half_up(t.1), t.1)
}

/// The cube position encoded by an offset (column, row) pair.
pub open spec fn cube_of_offset(col: int, row: int) -> (int, int, int) {
    axial(col - half_up(row), row)
}

/// Encoding a cube position from an offset pair and reading the offset
/// back yields the original pair, for every pair of integers.
pub proof fn lemma_offset_round_trip(col: int, row: int)
    ensures
        offset_of_cube(cube_of_offset(col, row)) == (col, row),
{
}

/// The absolute value of an integer.
pub open spec fn iabs(x: int) -> int {
    if x < 0 {
        -x
    } else {
        x
    }
}

/// The hex-grid distance of a cube triple from the origin.
pub open spec fn cube_len(t: (int, int, int)) -> int {
    (iabs(t.0) + iabs(t.1) + iabs(t.2)) / 2
}

/// Half of `x`, rounded up.
fn div2_up(x: i32) -> (r: i32)
    requires
        -2_000_000_000 <= x <= 2_000_000_000,
    ensures
        r as int == half_up(x as int),
{
    if x >= 0 {
        (x + 1) / 2
    } else {
        -((-x) / 2)
    }
}

impl Hex {
    /// Builds a position from an offset (column, row) pair.
    pub fn from_offset(offset: (i32, i32)) -> (result: Hex)
        requires
            -500_000_000 <= offset.0 <= 500_000_000,
            -500_000_000 <= offset.1 <= 500_000_000,
        ensures
            result@ == cube_of_offset(offset.0 as int, offset.1 as int),
            cube_wf(result@),
    {
        let (col, row) = offset;
        let q = col - div2_up(row);
        Hex::from_axial(q, row)
    }

    /// The offset (column, row) pair of this position.
    pub fn to_offset(&self) -> (result: (i32, i32))
        requires
            cube_within(self@, 1_000_000_000),
        ensures
            (result.0 as int, result.1 as int) == offset_of_cube(self@),
    {
        let col = self.q + div2_up(self.r);
        (col, self.r)
    }

    /// The adjacent position one step in the given direction.
    pub fn neighbor(&self, dir: HexDirection) -> (result: Hex)
        requires
            cube_fits(cube_add(self@, delta(dir))),
        ensures
            result@ == cube_add(self@, delta(dir)),
    {
        self.add(dir.to_hex())
    }

    /// The adjacent position one step in the direction at the given
    /// position of the cyclic order.
    pub fn neighbor_from_index(&self, index: usize) -> (result: Hex)
        requires
            index < 6,
            cube_fits(cube_add(self@, delta(dir_at(index as int)))),
        ensures
            result@ == cube_add(self@, delta(dir_at(index as int))),
    {
        self.neighbor(HexDirection::from_usize(index))
    }

    /// The hex-grid distance of this position from the origin.
    pub fn length(&self) -> (result: i32)
        requires
            cube_within(self@, 700_000_000),
        ensures
            result as int == cube_len(self@),
    {
        let qa = if self.q < 0 { -self.q } else { self.q };
        let ra = if self.r < 0 { -self.r } else { self.r };
        let sa = if self.s < 0 { -self.s } else { self.s };
        (qa + ra + sa) / 2
    }

    /// The hex-grid distance between two positions.
    pub fn distance(self, rhs: Hex) -> (result: i32)
        requires
            cube_within(self@, 350_000_000),
            cube_within(rhs@, 350_000_000),
        ensures
            result as int == cube_len(cube_sub(self@, rhs@)),
    {
        self.sub(rhs).length()
    }
}

impl HexDirection {
    /// The direction at the given position of the cyclic order.
    pub fn from_usize(n: usize) -> (result: HexDirection)
        requires
            n < 6,
        ensures
            result == dir_at(n as int),
    {
        match n {
            0 => HexDirection::E,
            1 => HexDirection::SE,
            2 => HexDirection::SW,
            3 => HexDirection::W,
            4 => HexDirection::NW,
            _ => HexDirection::NE,
        }
    }

    /// The position of this direction in the cyclic order.
    pub fn to_usize(self) -> (result: usize)
        ensures
            result as int == dir_index(self),
            result < 6,
    {
        match self {
            HexDirection::E => 0,
            HexDirection::SE => 1,
            HexDirection::SW => 2,
            HexDirection::W => 3,
            HexDirection::NW => 4,
            HexDirection::NE => 5,
        }
    }

    /// The unique direction leading from `from` to its adjacent position
    /// `to`; the two positions must be adjacent.
    pub fn get_dir_from_to(from: Hex, to: Hex) -> (result: HexDirection)
        requires
            dir_between(from@, to@) is Some,
        ensures
            dir_between(from@, to@) == Some(result),
    {
        let dq = to.q - from.q;
        let dr = to.r - from.r;
        let ds = to.s - from.s;
        if dq == 1 && dr == 0 && ds == -1 {
            HexDirection::E
        } else if dq == 1 && dr == -1 && ds == 0 {
            HexDirection::SE
        } else if dq == 0 && dr == -1 && ds == 1 {
            HexDirection::SW
        } else if dq == -1 && dr == 0 && ds == 1 {
            HexDirection::W
        } else if dq == -1 && dr == 1 && ds == 0 {
            HexDirection::NW
        } else {
            proof {
                assert(cube_sub(to@, from@) == delta(HexDirection::NE));
            }
            HexDirection::NE
        }
    }
}

/// The sum of the first `e` unit deltas of the cyclic order.
pub open spec fn edge_prefix(e: int) -> (int, int, int)
    decreases e,
{
    if e <= 0 {
        (0, 0, 0)
    } else {
        cube_add(edge_prefix(e - 1), delta(dir_at(e - 1)))
    }
}

/// The cell at position `k` of the ring of the given radius: the walk
/// starts one direction before the first edge and advances through six
/// edges of `radius` steps each.
pub open spec fn ring_cell(c: (int, int, int), radius: int, k: int) -> (int, int, int) {
    let e = k / radius;
    let j = k % radius;
    cube_add(
        cube_add(c, cube_scale(delta(HexDirection::NW), radius)),
        cube_add(cube_scale(edge_prefix(e), radius), cube_scale(delta(dir_at(e)), j)),
    )
}

/// The cells of the hexagonal ring at the given radius around `c`, in
/// clockwise order; the ring of radius zero is the cell itself.
pub open spec fn ring_seq(c: (int, int, int), radius: int) -> Seq<(int, int, int)> {
    if radius == 0 {
        seq![c]
    } else {
        Seq::new((6 * radius) as nat, |k: int| ring_cell(c, radius, k))
    }
}

/// The concatenation of the rings of radius `0..=radius` around `c`.
pub open spec fn spiral_seq(c: (int, int, int), radius: int) -> Seq<(int, int, int)>
    decreases radius,
{
    if radius <= 0 {
        seq![c]
    } else {
        spiral_seq(c, radius - 1) + ring_seq(c, radius)
    }
}

impl Hex {
    /// The `6 * radius` cells forming the hexagonal ring at the given
    /// distance around this position, in a fixed clockwise order; for
    /// radius zero, the position itself.
    pub fn ring(&self, radius: i32) -> (result: Vec<Hex>)
        requires
            0 <= radius <= 100_000_000,
            cube_within(self@, 500_000_000),
        ensures
            result@.map_values(|h: Hex| h@) == ring_seq(self@, radius as int),
    {
        let mut results: Vec<Hex> = Vec::new();
        proof {
            lemma_cube_scale_bound(delta(HexDirection::NW), 1, radius as int);
        }
        let mut h = self.add(HexDirection::NW.to_hex().scale(radius));
        let mut i: usize = 0;
        while i < 6
            invariant
                0 <= radius <= 100_000_000,
                cube_within(self@, 500_000_000),
                i <= 6,
                results@.len() == i * (radius as int),
                forall|k: int|
                    0 <= k < results@.len() ==> (#[trigger] results@[k])@ == ring_cell(
                        self@,
                        radius as int,
                        k,
                    ),
                h@ == cube_add(
                    cube_add(self@, cube_scale(delta(HexDirection::NW), radius as int)),
                    cube_scale(edge_prefix(i as int), radius as int),
                ),
                cube_within(h@, 600_000_000 + 100_000_000 * (i as int)),
            decreases 6 - i,
        {
            let mut j: i32 = 0;
            while j < radius
                invariant
                    0 <= radius <= 100_000_000,
                    cube_within(self@, 500_000_000),
                    i < 6,
                    0 <= j <= radius,
                    results@.len() == i * (radius as int) + j,
                    forall|k: int|
                        0 <= k < results@.len() ==> (#[trigger] results@[k])@ == ring_cell(
                            self@,
                            radius as int,
                            k,
                        ),
                    h@ == cube_add(
                        cube_add(self@, cube_scale(delta(HexDirection::NW), radius as int)),
                        cube_add(
                            cube_scale(edge_prefix(i as int), radius as int),
                            cube_scale(delta(dir_at(i as int)), j as int),
                        ),
                    ),
                    cube_within(h@, 600_000_000 + 100_000_000 * (i as int) + j),
                decreases radius - j,
            {
                proof {
                    vstd::arithmetic::div_mod::lemma_fundamental_div_mod_converse(
                        i * (radius as int) + j,
                        radius as int,
                        i as int,
                        j as int,
                    );
                }
                results.push(h);
                h = h.add(HexDirection::from_usize(i).to_hex());
                proof {
                    let d = delta(dir_at(i as int));
                    assert(d.0 * (j + 1) == d.0 * j + d.0 && d.1 * (j + 1) == d.1 * j + d.1 && d.2
                        * (j + 1) == d.2 * j + d.2) by (nonlinear_arith);
                }
                j = j + 1;
            }
            proof {
                let p = edge_prefix(i as int);
                let d = delta(dir_at(i as int));
                let r = radius as int;
                assert((p.0 + d.0) * r == p.0 * r + d.0 * r && (p.1 + d.1) * r == p.1 * r + d.1 * r
                    && (p.2 + d.2) * r == p.2 * r + d.2 * r) by (nonlinear_arith);
                assert(edge_prefix(i as int + 1) == cube_add(p, d));
                assert((i as int + 1) * r == i * r + r) by (nonlinear_arith);
            }
            i = i + 1;
        }
        if radius == 0 {
            results.push(*self);
        }
        proof {
            assert(results@.map_values(|h: Hex| h@) =~= ring_seq(self@, radius as int));
        }
        results
    }

    /// The cells of all rings of radius `0..=radius` around this
    /// position, nearest ring first, starting with the position itself.
    pub fn spiral(&self, radius: i32) -> (result: Vec<Hex>)
        requires
            0 <= radius <= 100_000_000,
            cube_within(self@, 500_000_000),
        ensures
            result@.map_values(|h: Hex| h@) == spiral_seq(self@, radius as int),
    {
        let mut results: Vec<Hex> = Vec::new();
        results.push(*self);
        proof {
            assert(results@.map_values(|h: Hex| h@) =~= spiral_seq(self@, 0));
        }
        let mut r: i32 = 1;
        while r <= radius
            invariant
                0 <= radius <= 100_000_000,
                cube_within(self@, 500_000_000),
                1 <= r <= radius + 1,
                results@.map_values(|h: Hex| h@) == spiral_seq(self@, r - 1),
            decreases radius + 1 - r,
        {
            let mut ring_cells = self.ring(r);
            let ghost pre = results@;
            let ghost ring_view = ring_cells@;
            results.append(&mut ring_cells);
            proof {
                assert(results@.map_values(|h: Hex| h@) =~= pre.map_values(|h: Hex| h@)
                    + ring_view.map_values(|h: Hex| h@));
            }
            r = r + 1;
        }
        results
    }
}

/// From any position, the direction read back between the position and
/// its neighbor in direction `d` is `d` itself.
pub proof fn lemma_dir_between_neighbor(a: (int, int, int), d: HexDirection)
    ensures
        dir_between(a, cube_add(a, delta(d))) == Some(d),
{
}

} // verus!
