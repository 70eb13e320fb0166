use crate::hex::cube_add;
use crate::hex::cube_within;
use crate::hex::delta;
use crate::hex::dir_between;
use crate::hex::lemma_dir_between_neighbor;
use crate::hex::dir_at;
use crate::hex::dir_index;
use crate::hex::Hex;
use crate::hex::HexDirection;
use crate::rng::draw_below;
use crate::rng::lcg_next;
use crate::rng::WalkRng;
use vstd::prelude::*;

verus! {

/// The cube triples of a sequence of positions, as a set.
pub open spec fn views_of(s: Seq<Hex>) -> Set<(int, int, int)> {
    s.map_values(|h: Hex| h@).to_set()
}

/// Whether no two positions of the sequence share a cube triple.
pub open spec fn distinct_views(s: Seq<Hex>) -> bool {
    forall|i: int, j: int| 0 <= i < j < s.len() ==> s[i]@ != s[j]@
}

/// A generated level: the set of valid cells together with its start
/// and goal cells.
pub struct HexMap {
    pub cells: Vec<Hex>,
    pub start: Hex,
    pub goal: Hex,
}

impl HexMap {
    /// The set of valid cells, as cube triples.
    pub open spec fn cell_set(&self) -> Set<(int, int, int)> {
        views_of(self.cells@)
    }

    /// A well-formed board: cells listed once each and within the
    /// coordinate bounds, not too many of them, and the start and goal
    /// cells both valid.
    pub open spec fn wf(&self) -> bool {
        &&& distinct_views(self.cells@)
        &&& forall|i: int|
            0 <= i < self.cells@.len() ==> cube_within(#[trigger] self.cells@[i]@, 1_000_000_000)
        &&& self.cells@.len() <= 0x100_0000
        &&& self.cell_set().contains(self.start@)
        &&& self.cell_set().contains(self.goal@)
    }

    /// Whether the given position is a valid cell of this board.
    pub fn is_in_map(&self, hex: Hex) -> (r: bool)
        ensures
            r == self.cell_set().contains(hex@),
    {
        vec_contains(&self.cells, hex)
    }
}

/// Every valid cell of a well-formed board lies within the coordinate
/// bounds.
pub proof fn lemma_cell_bound(m: &HexMap, c: (int, int, int))
    requires
        m.wf(),
        m.cell_set().contains(c),
    ensures
        cube_within(c, 1_000_000_000),
{
    let mapped = m.cells@.map_values(|h: Hex| h@);
    let k = choose|k: int| 0 <= k < mapped.len() && mapped[k] == c;
    assert(m.cells@[k]@ == c);
}

/// Whether the given position occurs in the vector, compared by cube
/// triple.
fn vec_contains(cells: &Vec<Hex>, hex: Hex) -> (r: bool)
    ensures
        r == views_of(cells@).contains(hex@),
{
    let mut i: usize = 0;
    while i < cells.len()
        invariant
            i <= cells@.len(),
            forall|k: int| 0 <= k < i ==> (#[trigger] cells@[k])@ != hex@,
        decreases cells@.len() - i,
    {
        if cells[i] == hex {
            proof {
                assert(cells@.map_values(|h: Hex| h@)[i as int] == hex@);
            }
            return true;
        }
        i += 1;
    }
    proof {
        let mapped = cells@.map_values(|h: Hex| h@);
        if mapped.contains(hex@) {
            let j = choose|j: int| 0 <= j < mapped.len() && mapped[j] == hex@;
            assert(cells@[j]@ == hex@);
            assert(false);
        }
    }
    false
}

/// Appends the position unless an equal cell is already present,
/// keeping the cell list duplicate-free.
fn push_unique(cells: &mut Vec<Hex>, hex: Hex)
    requires
        distinct_views(old(cells)@),
        forall|i: int|
            0 <= i < old(cells)@.len() ==> cube_within(#[trigger] old(cells)@[i]@, 1_000_000_000),
        cube_within(hex@, 1_000_000_000),
        old(cells)@.len() < 0x100_0000,
    ensures
        distinct_views(final(cells)@),
        forall|i: int|
            0 <= i < final(cells)@.len() ==> cube_within(
                #[trigger] final(cells)@[i]@,
                1_000_000_000,
            ),
        views_of(final(cells)@) == views_of(old(cells)@).insert(hex@),
        final(cells)@ == (if views_of(old(cells)@).contains(hex@) {
            old(cells)@
        } else {
            old(cells)@.push(hex)
        }),
        old(cells)@.len() <= final(cells)@.len() <= old(cells)@.len() + 1,
{
    if !vec_contains(cells, hex) {
        cells.push(hex);
        proof {
            assert forall|k: int| 0 <= k < cells@.len() - 1 implies (#[trigger] cells@[k])@
                != hex@ by {
                assert(old(cells)@.map_values(|h: Hex| h@)[k] == cells@[k]@);
                assert(!views_of(old(cells)@).contains(cells@[k]@)
                    == !old(cells)@.map_values(|h: Hex| h@).contains(cells@[k]@));
            }
            let f = |h: Hex| h@;
            let mold = old(cells)@.map_values(f);
            let mnew = cells@.map_values(f);
            assert(mnew =~= mold.push(hex@));
            assert forall|x: (int, int, int)|
                views_of(cells@).contains(x) implies views_of(old(cells)@).insert(
                hex@,
            ).contains(x) by {
                let j = choose|j: int| 0 <= j < mnew.len() && mnew[j] == x;
                if j < mold.len() {
                    assert(mold[j] == x);
                }
            }
            assert forall|x: (int, int, int)|
                views_of(old(cells)@).insert(hex@).contains(x) implies views_of(
                cells@,
            ).contains(x) by {
                if x == hex@ {
                    assert(mnew[mnew.len() - 1] == x);
                } else {
                    let j = choose|j: int| 0 <= j < mold.len() && mold[j] == x;
                    assert(mnew[j] == x);
                }
            }
            assert(views_of(cells@) =~= views_of(old(cells)@).insert(hex@));
        }
    } else {
        proof {
            assert(views_of(cells@) =~= views_of(old(cells)@).insert(hex@));
        }
    }
}

/// The walk delta drawn at `k`: one of the four band directions that
/// bias a generated board into a diagonal band.
pub open spec fn band_delta(k: u32) -> (int, int, int) {
    if k == 0 {
        delta(HexDirection::NW)
    } else if k == 1 {
        delta(HexDirection::NE)
    } else if k == 2 {
        delta(HexDirection::E)
    } else {
        delta(HexDirection::W)
    }
}

/// Appends a cell unless an equal one is already present: the
/// order-preserving, duplicate-free insertion the generator uses.
pub open spec fn spush(s: Seq<(int, int, int)>, c: (int, int, int)) -> Seq<(int, int, int)> {
    if s.contains(c) {
        s
    } else {
        s.push(c)
    }
}

/// A snapshot of the generator's walk: the cells inserted so far, the
/// walker's current cell, and the random source's state.
pub struct GenWalk {
    pub cells: Seq<(int, int, int)>,
    pub last: (int, int, int),
    pub rng: u64,
}

/// `b` branch cells inserted off the walker's cell, each one drawn
/// step away from it.
pub open spec fn walk_branch(w: GenWalk, b: int) -> GenWalk
    decreases b,
{
    if b <= 0 {
        w
    } else {
        let w1 = walk_branch(w, b - 1);
        GenWalk {
            cells: spush(w1.cells, cube_add(w1.last, band_delta(draw_below(w1.rng, 4)))),
            last: w1.last,
            rng: lcg_next(w1.rng),
        }
    }
}

/// One walk iteration: with one chance in three a three-cell branch,
/// then one drawn step forward, inserting the new cell.
pub open spec fn walk_step(w: GenWalk) -> GenWalk {
    let w1 = GenWalk { cells: w.cells, last: w.last, rng: lcg_next(w.rng) };
    let w2 = if draw_below(w.rng, 3) == 0 {
        walk_branch(w1, 3)
    } else {
        w1
    };
    let next = cube_add(w2.last, band_delta(draw_below(w2.rng, 4)));
    GenWalk { cells: spush(w2.cells, next), last: next, rng: lcg_next(w2.rng) }
}

/// The walk after `n` of its twenty iterations, started at the origin
/// with the given seed.
pub open spec fn gen_walk_at(seed: u64, n: int) -> GenWalk
    decreases n,
{
    if n <= 0 {
        GenWalk { cells: Seq::empty(), last: (0, 0, 0), rng: seed }
    } else {
        walk_step(gen_walk_at(seed, n - 1))
    }
}

/// The generator's whole twenty-step walk under the given seed.
pub open spec fn gen_walk(seed: u64) -> GenWalk {
    gen_walk_at(seed, 20)
}

/// The goal of the generated board: the walk's final cell.
pub open spec fn gen_goal(seed: u64) -> (int, int, int) {
    gen_walk(seed).last
}

/// The sequence with the first `k` ring cells around `c` appended.
pub open spec fn with_halo(
    s: Seq<(int, int, int)>,
    c: (int, int, int),
    k: int,
) -> Seq<(int, int, int)>
    decreases k,
{
    if k <= 0 {
        s
    } else {
        spush(with_halo(s, c, k - 1), cube_add(c, delta(dir_at(k - 1))))
    }
}

/// The cells of the board generated under the given seed: the walk's
/// trace, then the start and goal cells, then a one-ring halo around
/// each.
pub open spec fn gen_cells(seed: u64) -> Seq<(int, int, int)> {
    let w = gen_walk(seed);
    with_halo(with_halo(spush(spush(w.cells, (0, 0, 0)), w.last), (0, 0, 0), 6), w.last, 6)
}

/// A branch leaves the walker where it stands.
proof fn lemma_walk_branch_last(w: GenWalk, b: int)
    ensures
        walk_branch(w, b).last == w.last,
    decreases b,
{
    if b > 0 {
        lemma_walk_branch_last(w, b - 1);
    }
}

/// Pushing through the duplicate filter maps to the spec-level
/// insertion on the viewed sequence.
proof fn lemma_mapped_push(pre: Seq<Hex>, post: Seq<Hex>, hex: Hex)
    requires
        post == (if views_of(pre).contains(hex@) {
            pre
        } else {
            pre.push(hex)
        }),
    ensures
        post.map_values(|h: Hex| h@) == spush(pre.map_values(|h: Hex| h@), hex@),
{
    if !views_of(pre).contains(hex@) {
        assert(post.map_values(|h: Hex| h@) =~= pre.map_values(|h: Hex| h@).push(hex@));
    }
}

/// The drawn walk delta, as a position.
fn band_step(k: u32) -> (result: Hex)
    requires
        k < 4,
    ensures
        result@ == band_delta(k),
        cube_within(result@, 1),
{
    if k == 0 {
        HexDirection::NW.to_hex()
    } else if k == 1 {
        HexDirection::NE.to_hex()
    } else if k == 2 {
        HexDirection::E.to_hex()
    } else {
        HexDirection::W.to_hex()
    }
}

/// Seven distinct cells pin the cell count from below.
proof fn lemma_seven_center_cells(cells: Seq<Hex>)
    requires
        views_of(cells).contains((0int, 0int, 0int)),
        views_of(cells).contains((1int, 0int, -1int)),
        views_of(cells).contains((1int, -1int, 0int)),
        views_of(cells).contains((0int, -1int, 1int)),
        views_of(cells).contains((-1int, 0int, 1int)),
        views_of(cells).contains((-1int, 1int, 0int)),
        views_of(cells).contains((0int, 1int, -1int)),
    ensures
        cells.len() >= 7,
{
    let mapped = cells.map_values(|h: Hex| h@);
    let j0 = choose|j: int| 0 <= j < mapped.len() && mapped[j] == (0int, 0int, 0int);
    let j1 = choose|j: int| 0 <= j < mapped.len() && mapped[j] == (1int, 0int, -1int);
    let j2 = choose|j: int| 0 <= j < mapped.len() && mapped[j] == (1int, -1int, 0int);
    let j3 = choose|j: int| 0 <= j < mapped.len() && mapped[j] == (0int, -1int, 1int);
    let j4 = choose|j: int| 0 <= j < mapped.len() && mapped[j] == (-1int, 0int, 1int);
    let j5 = choose|j: int| 0 <= j < mapped.len() && mapped[j] == (-1int, 1int, 0int);
    let j6 = choose|j: int| 0 <= j < mapped.len() && mapped[j] == (0int, 1int, -1int);
    assert(cells.len() >= 7);
}

/// The twenty-step random walk: fills the cell list with the walk's
/// trace and returns the final cell.
#[verifier::loop_isolation(false)]
#[verifier::rlimit(100)]
fn run_walk(rng: &mut WalkRng, cells: &mut Vec<Hex>) -> (last: Hex)
    requires
        old(cells)@.len() == 0,
    ensures
        distinct_views(final(cells)@),
        forall|i: int|
            0 <= i < final(cells)@.len() ==> cube_within(
                #[trigger] final(cells)@[i]@,
                1_000_000_000,
            ),
        final(cells)@.len() <= 80,
        cube_within(last@, 20),
        final(rng)@ == gen_walk(old(rng)@).rng,
        last@ == gen_goal(old(rng)@),
        final(cells)@.map_values(|h: Hex| h@) == gen_walk(old(rng)@).cells,
{
    let ghost seed = rng@;
    let mut last_hex = Hex::from_axial(0, 0);
    let mut cnt: u32 = 20;
    while cnt > 0
        invariant
            cnt <= 20,
            cube_within(last_hex@, 20 - cnt),
            distinct_views(cells@),
            forall|i: int|
                0 <= i < cells@.len() ==> cube_within(#[trigger] cells@[i]@, 1_000_000_000),
            cells@.len() <= 4 * (20 - cnt),
            rng@ == gen_walk_at(seed, 20 - cnt).rng,
            last_hex@ == gen_walk_at(seed, 20 - cnt).last,
            cells@.map_values(|h: Hex| h@) == gen_walk_at(seed, 20 - cnt).cells,
        decreases cnt,
    {
        let ghost w = gen_walk_at(seed, 20 - cnt);
        cnt = cnt - 1;
        let ghost w1 = GenWalk { cells: w.cells, last: w.last, rng: lcg_next(w.rng) };
        let r1 = rng.next_below(3);
        let ghost w2 = if r1 == 0 {
            walk_branch(w1, 3)
        } else {
            w1
        };
        if r1 == 0 {
            let mut b: u32 = 0;
            while b < 3
                invariant
                    b <= 3,
                    cnt < 20,
                    cube_within(last_hex@, 20 - cnt - 1),
                    distinct_views(cells@),
                    forall|i: int|
                        0 <= i < cells@.len() ==> cube_within(
                            #[trigger] cells@[i]@,
                            1_000_000_000,
                        ),
                    cells@.len() <= 4 * (20 - cnt - 1) + b,
                    rng@ == walk_branch(w1, b as int).rng,
                    cells@.map_values(|h: Hex| h@) == walk_branch(w1, b as int).cells,
                decreases 3 - b,
            {
                let ghost wb = walk_branch(w1, b as int);
                proof {
                    lemma_walk_branch_last(w1, b as int);
                }
                let k = rng.next_below(4);
                let p_hex = last_hex.add(band_step(k));
                let ghost pre = cells@;
                push_unique(cells, p_hex);
                proof {
                    lemma_mapped_push(pre, cells@, p_hex);
                    assert(walk_branch(w1, b as int + 1).cells == spush(
                        wb.cells,
                        cube_add(wb.last, band_delta(draw_below(wb.rng, 4))),
                    ));
                }
                b += 1;
            }
        }
        let k2 = rng.next_below(4);
        let next_hex = last_hex.add(band_step(k2));
        let ghost pre2 = cells@;
        last_hex = next_hex;
        push_unique(cells, last_hex);
        proof {
            lemma_mapped_push(pre2, cells@, next_hex);
            if r1 == 0 {
                lemma_walk_branch_last(w1, 3);
            }
            assert(gen_walk_at(seed, 20 - cnt) == walk_step(w));
        }
    }
    last_hex
}


/// A chain of pairwise-adjacent cells lying inside `s`.
pub open spec fn is_cell_chain(s: Set<(int, int, int)>, p: Seq<(int, int, int)>) -> bool {
    &&& p.len() >= 1
    &&& forall|k: int| 0 <= k < p.len() ==> s.contains(#[trigger] p[k])
    &&& forall|k: int| 0 <= k < p.len() - 1 ==> dir_between(#[trigger] p[k], p[k + 1]) is Some
}

/// Two cells joined by a chain of adjacent cells lying inside `s`.
pub open spec fn linked_in(s: Set<(int, int, int)>, a: (int, int, int), b: (int, int, int)) -> bool {
    exists|p: Seq<(int, int, int)>|
        #[trigger] is_cell_chain(s, p) && p[0] == a && p[p.len() - 1] == b
}

/// A cell is joined to itself.
proof fn lemma_linked_refl(s: Set<(int, int, int)>, a: (int, int, int))
    requires
        s.contains(a),
    ensures
        linked_in(s, a, a),
{
    let p = seq![a];
    assert(is_cell_chain(s, p));
}

/// A chain extends by one adjacent cell.
proof fn lemma_linked_extend(
    s: Set<(int, int, int)>,
    a: (int, int, int),
    b: (int, int, int),
    c: (int, int, int),
)
    requires
        linked_in(s, a, b),
        s.contains(c),
        dir_between(b, c) is Some,
    ensures
        linked_in(s, a, c),
{
    let p = choose|p: Seq<(int, int, int)>|
        #[trigger] is_cell_chain(s, p) && p[0] == a && p[p.len() - 1] == b;
    let p2 = p.push(c);
    assert forall|k: int| 0 <= k < p2.len() implies s.contains(#[trigger] p2[k]) by {
        if k < p.len() {
            assert(p2[k] == p[k]);
        }
    }
    assert forall|k: int|
        0 <= k < p2.len() - 1 implies dir_between(#[trigger] p2[k], p2[k + 1]) is Some by {
        if k < p.len() - 1 {
            assert(p2[k] == p[k] && p2[k + 1] == p[k + 1]);
        } else {
            assert(p2[k] == b && p2[k + 1] == c);
        }
    }
    assert(is_cell_chain(s, p2) && p2[0] == a && p2[p2.len() - 1] == c);
}

/// A chain survives any growth of the cell set.
proof fn lemma_linked_mono(
    s1: Set<(int, int, int)>,
    s2: Set<(int, int, int)>,
    a: (int, int, int),
    b: (int, int, int),
)
    requires
        linked_in(s1, a, b),
        s1.subset_of(s2),
    ensures
        linked_in(s2, a, b),
{
    let p = choose|p: Seq<(int, int, int)>|
        #[trigger] is_cell_chain(s1, p) && p[0] == a && p[p.len() - 1] == b;
    assert forall|k: int| 0 <= k < p.len() implies s2.contains(#[trigger] p[k]) by {
        assert(s1.contains(p[k]));
    }
    assert(is_cell_chain(s2, p));
}

/// The duplicate-filtering insertion adds exactly one cell to the set.
proof fn lemma_spush_to_set(cs: Seq<(int, int, int)>, c: (int, int, int))
    ensures
        spush(cs, c).to_set() =~= cs.to_set().insert(c),
{
    let s2 = spush(cs, c);
    assert forall|x: (int, int, int)|
        s2.to_set().contains(x) implies cs.to_set().insert(c).contains(x) by {
        let j = choose|j: int| 0 <= j < s2.len() && s2[j] == x;
        if j < cs.len() {
            assert(cs[j] == x);
        }
    }
    assert forall|x: (int, int, int)|
        cs.to_set().insert(c).contains(x) implies s2.to_set().contains(x) by {
        if x == c {
            if !cs.contains(c) {
                assert(s2[s2.len() - 1] == x);
            }
        } else {
            let j = choose|j: int| 0 <= j < cs.len() && cs[j] == x;
            assert(s2[j] == x);
        }
    }
}

/// The walk's running connectivity: with the origin adjoined, the
/// walker's cell and every inserted cell are joined to the origin.
spec fn trace_connected(cs: Seq<(int, int, int)>, last: (int, int, int)) -> bool {
    let s = cs.to_set().insert((0int, 0int, 0int));
    &&& s.contains(last)
    &&& linked_in(s, (0int, 0int, 0int), last)
    &&& forall|c: (int, int, int)|
        cs.to_set().contains(c) ==> linked_in(s, (0int, 0int, 0int), c)
}

/// Each drawn walk delta joins a cell to an adjacent one.
proof fn lemma_band_adjacent(a: (int, int, int), k: u32)
    ensures
        dir_between(a, cube_add(a, band_delta(k))) is Some,
{
    if k == 0 {
        lemma_dir_between_neighbor(a, HexDirection::NW);
    } else if k == 1 {
        lemma_dir_between_neighbor(a, HexDirection::NE);
    } else if k == 2 {
        lemma_dir_between_neighbor(a, HexDirection::E);
    } else {
        lemma_dir_between_neighbor(a, HexDirection::W);
    }
}

/// Inserting a cell adjacent to the walker keeps the trace connected,
/// whether the walker stays or moves onto it.
proof fn lemma_spush_adjacent(cs: Seq<(int, int, int)>, last: (int, int, int), c: (int, int, int))
    requires
        trace_connected(cs, last),
        dir_between(last, c) is Some,
    ensures
        trace_connected(spush(cs, c), last),
        trace_connected(spush(cs, c), c),
{
    let s1 = cs.to_set().insert((0int, 0int, 0int));
    let s2 = spush(cs, c).to_set().insert((0int, 0int, 0int));
    lemma_spush_to_set(cs, c);
    assert(s2 =~= s1.insert(c));
    lemma_linked_mono(s1, s2, (0int, 0int, 0int), last);
    lemma_linked_extend(s2, (0int, 0int, 0int), last, c);
    assert forall|x: (int, int, int)|
        spush(cs, c).to_set().contains(x) implies linked_in(s2, (0int, 0int, 0int), x) by {
        if cs.to_set().contains(x) {
            lemma_linked_mono(s1, s2, (0int, 0int, 0int), x);
        } else {
            assert(x == c);
        }
    }
}

/// A branch keeps the trace connected.
proof fn lemma_branch_connected(w1: GenWalk, b: int)
    requires
        trace_connected(w1.cells, w1.last),
    ensures
        trace_connected(walk_branch(w1, b).cells, w1.last),
    decreases b,
{
    if b > 0 {
        lemma_branch_connected(w1, b - 1);
        lemma_walk_branch_last(w1, b - 1);
        let wb = walk_branch(w1, b - 1);
        lemma_band_adjacent(w1.last, draw_below(wb.rng, 4));
        lemma_spush_adjacent(wb.cells, w1.last, cube_add(w1.last, band_delta(draw_below(wb.rng, 4))));
    }
}

/// One walk iteration keeps the trace connected.
proof fn lemma_step_connected(w: GenWalk)
    requires
        trace_connected(w.cells, w.last),
    ensures
        trace_connected(walk_step(w).cells, walk_step(w).last),
{
    let w1 = GenWalk { cells: w.cells, last: w.last, rng: lcg_next(w.rng) };
    let w2 = if draw_below(w.rng, 3) == 0 {
        walk_branch(w1, 3)
    } else {
        w1
    };
    if draw_below(w.rng, 3) == 0 {
        lemma_branch_connected(w1, 3);
        lemma_walk_branch_last(w1, 3);
    }
    lemma_band_adjacent(w2.last, draw_below(w2.rng, 4));
    lemma_spush_adjacent(w2.cells, w2.last, cube_add(w2.last, band_delta(draw_below(w2.rng, 4))));
}

/// The whole walk keeps the trace connected.
proof fn lemma_walk_connected(seed: u64, n: int)
    ensures
        trace_connected(gen_walk_at(seed, n).cells, gen_walk_at(seed, n).last),
    decreases n,
{
    if n <= 0 {
        let s = Seq::<(int, int, int)>::empty().to_set().insert((0int, 0int, 0int));
        lemma_linked_refl(s, (0int, 0int, 0int));
    } else {
        lemma_walk_connected(seed, n - 1);
        lemma_step_connected(gen_walk_at(seed, n - 1));
    }
}

/// Every cell of `cs` is joined to the origin inside `cs` itself.
spec fn origin_connected(cs: Seq<(int, int, int)>) -> bool {
    forall|c: (int, int, int)|
        cs.to_set().contains(c) ==> linked_in(cs.to_set(), (0int, 0int, 0int), c)
}

/// Adjoining the start and goal cells turns the walk's trace into a
/// self-contained connected set.
proof fn lemma_ends_connected(w: GenWalk)
    requires
        trace_connected(w.cells, w.last),
    ensures
        origin_connected(spush(spush(w.cells, (0int, 0int, 0int)), w.last)),
        spush(spush(w.cells, (0int, 0int, 0int)), w.last).to_set().contains((0int, 0int, 0int)),
        spush(spush(w.cells, (0int, 0int, 0int)), w.last).to_set().contains(w.last),
{
    let s1 = w.cells.to_set().insert((0int, 0int, 0int));
    let both = spush(spush(w.cells, (0int, 0int, 0int)), w.last);
    lemma_spush_to_set(w.cells, (0int, 0int, 0int));
    lemma_spush_to_set(spush(w.cells, (0int, 0int, 0int)), w.last);
    assert(both.to_set() =~= s1);
    assert forall|c: (int, int, int)|
        both.to_set().contains(c) implies linked_in(both.to_set(), (0int, 0int, 0int), c) by {
        if c == (0int, 0int, 0int) {
            lemma_linked_refl(s1, (0int, 0int, 0int));
        } else if c == w.last {
            assert(linked_in(s1, (0int, 0int, 0int), w.last));
        } else {
            assert(w.cells.to_set().contains(c));
        }
    }
}

/// Inserting a cell adjacent to a cell of a connected set keeps the
/// set connected.
proof fn lemma_spush_anchored(cs: Seq<(int, int, int)>, anchor: (int, int, int), c: (int, int, int))
    requires
        origin_connected(cs),
        cs.to_set().contains(anchor),
        dir_between(anchor, c) is Some,
    ensures
        origin_connected(spush(cs, c)),
        cs.to_set().subset_of(spush(cs, c).to_set()),
{
    let s1 = cs.to_set();
    let s2 = spush(cs, c).to_set();
    lemma_spush_to_set(cs, c);
    assert(s2 =~= s1.insert(c));
    lemma_linked_mono(s1, s2, (0int, 0int, 0int), anchor);
    lemma_linked_extend(s2, (0int, 0int, 0int), anchor, c);
    assert forall|x: (int, int, int)|
        s2.contains(x) implies linked_in(s2, (0int, 0int, 0int), x) by {
        if s1.contains(x) {
            lemma_linked_mono(s1, s2, (0int, 0int, 0int), x);
        } else {
            assert(x == c);
        }
    }
}

/// A halo around a cell of a connected set keeps the set connected.
proof fn lemma_halo_connected(cs: Seq<(int, int, int)>, anchor: (int, int, int), k: int)
    requires
        origin_connected(cs),
        cs.to_set().contains(anchor),
    ensures
        origin_connected(with_halo(cs, anchor, k)),
        cs.to_set().subset_of(with_halo(cs, anchor, k).to_set()),
    decreases k,
{
    if k > 0 {
        lemma_halo_connected(cs, anchor, k - 1);
        let prev = with_halo(cs, anchor, k - 1);
        lemma_dir_between_neighbor(anchor, dir_at(k - 1));
        lemma_spush_anchored(prev, anchor, cube_add(anchor, delta(dir_at(k - 1))));
    }
}

/// Every cell of a generated board is joined to the start cell by a
/// chain of adjacent cells lying on the board: the walk is a chain
/// from the origin, branch cells hang off the walker, and the halos
/// hang off the start and goal cells.
pub proof fn lemma_gen_cells_connected(seed: u64)
    ensures
        forall|c: (int, int, int)|
            gen_cells(seed).to_set().contains(c) ==> linked_in(
                gen_cells(seed).to_set(),
                (0int, 0int, 0int),
                c,
            ),
{
    let w = gen_walk(seed);
    lemma_walk_connected(seed, 20);
    lemma_ends_connected(w);
    let base = spush(spush(w.cells, (0int, 0int, 0int)), w.last);
    lemma_halo_connected(base, (0int, 0int, 0int), 6);
    let base2 = with_halo(base, (0int, 0int, 0int), 6);
    lemma_halo_connected(base2, w.last, 6);
}

impl HexMap {
    /// Produces a board by a bounded random walk from the origin:
    /// twenty drawn steps among the four band directions, each
    /// sometimes preceded by a short branch of extra cells, with the
    /// final cell as the goal and a one-ring halo added around both
    /// the start and the goal cell. The board is a function of the
    /// source's starting state alone, so a seed reproduces it
    /// exactly.
    #[verifier::loop_isolation(false)]
    #[verifier::rlimit(100)]
    pub fn gen(rng: &mut WalkRng) -> (result: HexMap)
        ensures
            result.wf(),
            result.start@ == (0int, 0int, 0int),
            result.goal@ == gen_goal(old(rng)@),
            result.cells@.map_values(|h: Hex| h@) == gen_cells(old(rng)@),
            final(rng)@ == gen_walk(old(rng)@).rng,
            7 <= result.cells@.len() <= 94,
            forall|d: HexDirection|
                result.cell_set().contains(cube_add(result.start@, #[trigger] delta(d))),
            forall|d: HexDirection|
                result.cell_set().contains(cube_add(result.goal@, #[trigger] delta(d))),
            forall|c: (int, int, int)|
                result.cell_set().contains(c) ==> linked_in(
                    result.cell_set(),
                    result.start@,
                    c,
                ),
    {
        let ghost seed = rng@;
        let mut cells: Vec<Hex> = Vec::new();
        let start = Hex::from_axial(0, 0);
        let goal = run_walk(rng, &mut cells);
        let ghost wfin = gen_walk(seed);
        let ghost pre3 = cells@;
        push_unique(&mut cells, start);
        proof {
            lemma_mapped_push(pre3, cells@, start);
        }
        let ghost pre4 = cells@;
        push_unique(&mut cells, goal);
        proof {
            lemma_mapped_push(pre4, cells@, goal);
        }
        let ghost base = spush(spush(wfin.cells, (0int, 0int, 0int)), wfin.last);
        let mut i: usize = 0;
        while i < 6
            invariant
                i <= 6,
                distinct_views(cells@),
                forall|k: int|
                    0 <= k < cells@.len() ==> cube_within(#[trigger] cells@[k]@, 1_000_000_000),
                cells@.len() <= 82 + i,
                views_of(cells@).contains(start@),
                views_of(cells@).contains(goal@),
                forall|k: int|
                    0 <= k < i ==> views_of(cells@).contains(
                        cube_add(start@, delta(#[trigger] dir_at(k))),
                    ),
                cells@.map_values(|h: Hex| h@) == with_halo(base, (0int, 0int, 0int), i as int),
            decreases 6 - i,
        {
            let d = HexDirection::from_usize(i);
            let nb = start.neighbor(d);
            let ghost pre = cells@;
            push_unique(&mut cells, nb);
            proof {
                lemma_mapped_push(pre, cells@, nb);
            }
            i += 1;
        }
        let ghost base2 = with_halo(base, (0int, 0int, 0int), 6);
        let mut i2: usize = 0;
        while i2 < 6
            invariant
                i2 <= 6,
                distinct_views(cells@),
                forall|k: int|
                    0 <= k < cells@.len() ==> cube_within(#[trigger] cells@[k]@, 1_000_000_000),
                cells@.len() <= 88 + i2,
                views_of(cells@).contains(start@),
                views_of(cells@).contains(goal@),
                forall|k: int|
                    0 <= k < 6 ==> views_of(cells@).contains(
                        cube_add(start@, delta(#[trigger] dir_at(k))),
                    ),
                forall|k: int|
                    0 <= k < i2 ==> views_of(cells@).contains(
                        cube_add(goal@, delta(#[trigger] dir_at(k))),
                    ),
                cells@.map_values(|h: Hex| h@) == with_halo(base2, goal@, i2 as int),
            decreases 6 - i2,
        {
            let d = HexDirection::from_usize(i2);
            let nb = goal.neighbor(d);
            let ghost pre = cells@;
            push_unique(&mut cells, nb);
            proof {
                lemma_mapped_push(pre, cells@, nb);
            }
            i2 += 1;
        }
        proof {
            assert forall|d: HexDirection|
                views_of(cells@).contains(cube_add(start@, #[trigger] delta(d)))
                    && views_of(cells@).contains(cube_add(goal@, #[trigger] delta(d))) by {
                crate::hex::lemma_dir_at_index(d);
                assert(views_of(cells@).contains(cube_add(start@, delta(dir_at(dir_index(d))))));
                assert(views_of(cells@).contains(cube_add(goal@, delta(dir_at(dir_index(d))))));
            }
            assert(views_of(cells@).contains(cube_add((0int, 0int, 0int), delta(HexDirection::E))));
            assert(views_of(cells@).contains(
                cube_add((0int, 0int, 0int), delta(HexDirection::SE)),
            ));
            assert(views_of(cells@).contains(
                cube_add((0int, 0int, 0int), delta(HexDirection::SW)),
            ));
            assert(views_of(cells@).contains(cube_add((0int, 0int, 0int), delta(HexDirection::W))));
            assert(views_of(cells@).contains(
                cube_add((0int, 0int, 0int), delta(HexDirection::NW)),
            ));
            assert(views_of(cells@).contains(
                cube_add((0int, 0int, 0int), delta(HexDirection::NE)),
            ));
            lemma_seven_center_cells(cells@);
            lemma_gen_cells_connected(seed);
            assert(views_of(cells@) == gen_cells(seed).to_set());
        }
        HexMap { cells, start, goal }
    }
}

} // verus!
