use crate::board::HexMap;
use crate::graph::graph_add_node;
use crate::graph::graph_astar;
use crate::graph::graph_edges;
use crate::graph::graph_new;
use crate::graph::graph_nodes;
use crate::graph::graph_update_edge;
use crate::graph::is_id_path;
use crate::graph::node_id;
use crate::graph::node_index_value;
use crate::graph::uniform_unit_weights;
use crate::graph::MoveGraph;
use crate::hex::cube_add;
use crate::hex::delta;
use crate::hex::dir_at;
use crate::hex::dir_between;
use crate::hex::dir_index;
use crate::hex::lemma_delta_opposite;
use crate::hex::lemma_dir_at_index;
use crate::hex::lemma_dir_between_neighbor;
use crate::hex::opposite_dir;
use crate::hex::Hex;
use crate::hex::HexDirection;
use crate::player::lemma_state_view_injective;
use crate::player::transition_on_board;
use crate::player::PlayerState;
use crate::player::StateV;
use petgraph::graph::NodeIndex;
use vstd::prelude::*;

verus! {

/// A creature state lying entirely on the board: a standing state on
/// a valid cell, or a flat state over two adjacent valid cells. `Dead`
/// is never a node of the move graph.
pub open spec fn valid_state(cells: Set<(int, int, int)>, s: StateV) -> bool {
    match s {
        StateV::Standing(h) => cells.contains(h),
        StateV::Flat(h, t) => cells.contains(h) && cells.contains(t) && dir_between(t, h) is Some,
        StateV::Dead => false,
    }
}

/// One legal move on the board: some direction input carries `a` to
/// `b` under the board-aware rule, and `b` is alive.
pub open spec fn board_step(cells: Set<(int, int, int)>, a: StateV, b: StateV) -> bool {
    &&& b != StateV::Dead
    &&& exists|d: HexDirection| (#[trigger] transition_on_board(a, d, cells)) == b
}

/// The models of a sequence of states.
pub open spec fn seq_models(s: Seq<PlayerState>) -> Seq<StateV> {
    s.map_values(|p: PlayerState| p@)
}

/// A legal move sequence across the board from `s` to `t`: it starts
/// at `s`, ends at `t`, visits only states lying on the board, and
/// joins consecutive states by single moves.
pub open spec fn is_move_seq(
    cells: Set<(int, int, int)>,
    w: Seq<StateV>,
    s: StateV,
    t: StateV,
) -> bool {
    &&& w.len() >= 1
    &&& w[0] == s
    &&& w[w.len() - 1] == t
    &&& forall|k: int| 0 <= k < w.len() ==> valid_state(cells, #[trigger] w[k])
    &&& forall|k: int| 0 <= k < w.len() - 1 ==> board_step(cells, #[trigger] w[k], w[k + 1])
}

/// Whether the registry holds a state with the given model.
pub open spec fn reg_contains(states: Seq<PlayerState>, s: StateV) -> bool {
    exists|i: int| 0 <= i < states.len() && (#[trigger] states[i])@ == s
}

/// The registry position of the state with the given model.
pub open spec fn reg_index(states: Seq<PlayerState>, s: StateV) -> int {
    choose|i: int| 0 <= i < states.len() && (#[trigger] states[i])@ == s
}

/// No two registered states share a model.
pub open spec fn distinct_states(states: Seq<PlayerState>) -> bool {
    forall|i: int, j: int| 0 <= i < j < states.len() ==> states[i]@ != states[j]@
}

/// The solver's registry invariant: one node per registered state,
/// indices numbered in registration order, models distinct, and every
/// registered state lying on the board.
pub open spec fn reg_wf(
    states: Seq<PlayerState>,
    nodes: Seq<NodeIndex<u32>>,
    g: MoveGraph,
    cells: Set<(int, int, int)>,
) -> bool {
    &&& nodes.len() == states.len()
    &&& graph_nodes(g).len() == states.len()
    &&& forall|k: int| 0 <= k < nodes.len() ==> node_id(#[trigger] nodes[k]) == k
    &&& distinct_states(states)
    &&& forall|k: int| 0 <= k < states.len() ==> valid_state(cells, (#[trigger] states[k])@)
}

/// The solver's edge invariant: every recorded edge weighs one and
/// joins two registered states relatable by a single move.
pub open spec fn edges_ok(
    states: Seq<PlayerState>,
    g: MoveGraph,
    cells: Set<(int, int, int)>,
) -> bool {
    &&& uniform_unit_weights(graph_edges(g))
    &&& graph_edges(g).dom().finite()
    &&& forall|p: (int, int)| #[trigger]
        graph_edges(g).dom().contains(p) ==> 0 <= p.0 < states.len() && 0 <= p.1 < states.len()
            && board_step(cells, states[p.0]@, states[p.1]@)
}

/// The move from `a` to `b` is recorded: both states registered, and
/// an edge present between their nodes.
pub open spec fn edge_recorded(
    states: Seq<PlayerState>,
    dom: Set<(int, int)>,
    a: StateV,
    b: StateV,
) -> bool {
    exists|i: int, j: int|
        0 <= i < states.len() && 0 <= j < states.len() && (#[trigger] states[i])@ == a && (
        #[trigger] states[j])@ == b && dom.contains((i, j))
}

/// Every live move out of `src` is recorded.
pub open spec fn src_expanded(
    states: Seq<PlayerState>,
    dom: Set<(int, int)>,
    cells: Set<(int, int, int)>,
    src: StateV,
) -> bool {
    forall|d: HexDirection|
        (#[trigger] transition_on_board(src, d, cells)) != StateV::Dead ==> edge_recorded(
            states,
            dom,
            src,
            transition_on_board(src, d, cells),
        )
}

/// Every live move out of `src` under the first `n` directions of the
/// cyclic order is recorded.
pub open spec fn src_expanded_upto(
    states: Seq<PlayerState>,
    dom: Set<(int, int)>,
    cells: Set<(int, int, int)>,
    src: StateV,
    n: int,
) -> bool {
    forall|j: int|
        0 <= j < n ==> (transition_on_board(src, #[trigger] dir_at(j), cells) == StateV::Dead
            || edge_recorded(states, dom, src, transition_on_board(src, dir_at(j), cells)))
}

/// Every source state over the cell `c` is expanded: its standing
/// state, and each flat state pairing it with a valid adjacent tail.
pub open spec fn cell_expanded(
    states: Seq<PlayerState>,
    dom: Set<(int, int)>,
    cells: Set<(int, int, int)>,
    c: (int, int, int),
) -> bool {
    &&& src_expanded(states, dom, cells, StateV::Standing(c))
    &&& forall|d: HexDirection|
        cells.contains(cube_add(c, #[trigger] delta(d))) ==> src_expanded(
            states,
            dom,
            cells,
            StateV::Flat(c, cube_add(c, delta(d))),
        )
}

/// The flat sources over `c` with tails in the first `n` directions
/// of the cyclic order are expanded.
pub open spec fn flat_tails_upto(
    states: Seq<PlayerState>,
    dom: Set<(int, int)>,
    cells: Set<(int, int, int)>,
    c: (int, int, int),
    n: int,
) -> bool {
    forall|j: int|
        0 <= j < n ==> (!cells.contains(cube_add(c, delta(#[trigger] dir_at(j)))) || src_expanded(
            states,
            dom,
            cells,
            StateV::Flat(c, cube_add(c, delta(dir_at(j)))),
        ))
}

/// The first `n` board cells are fully expanded.
pub open spec fn cells_expanded_upto(
    states: Seq<PlayerState>,
    dom: Set<(int, int)>,
    cells: Set<(int, int, int)>,
    cellsq: Seq<Hex>,
    n: int,
) -> bool {
    forall|ci: int| 0 <= ci < n ==> cell_expanded(states, dom, cells, (#[trigger] cellsq[ci])@)
}

/// A recorded move stays recorded when the registry grows at its end
/// and the edge set grows.
proof fn lemma_recorded_monotone(
    s1: Seq<PlayerState>,
    s2: Seq<PlayerState>,
    d1: Set<(int, int)>,
    d2: Set<(int, int)>,
    a: StateV,
    b: StateV,
)
    requires
        edge_recorded(s1, d1, a, b),
        s2.len() >= s1.len(),
        forall|i: int| 0 <= i < s1.len() ==> s2[i] == s1[i],
        d1.subset_of(d2),
    ensures
        edge_recorded(s2, d2, a, b),
{
    let (i, j) = choose|i: int, j: int|
        0 <= i < s1.len() && 0 <= j < s1.len() && (#[trigger] s1[i])@ == a && (#[trigger] s1[j])@
            == b && d1.contains((i, j));
    assert(s2[i]@ == a && s2[j]@ == b && d2.contains((i, j)));
}

/// An expanded source stays expanded when the registry and the edge
/// set grow.
proof fn lemma_src_expanded_monotone(
    s1: Seq<PlayerState>,
    s2: Seq<PlayerState>,
    d1: Set<(int, int)>,
    d2: Set<(int, int)>,
    cells: Set<(int, int, int)>,
    src: StateV,
)
    requires
        src_expanded(s1, d1, cells, src),
        s2.len() >= s1.len(),
        forall|i: int| 0 <= i < s1.len() ==> s2[i] == s1[i],
        d1.subset_of(d2),
    ensures
        src_expanded(s2, d2, cells, src),
{
    assert forall|d: HexDirection|
        (#[trigger] transition_on_board(src, d, cells)) != StateV::Dead implies edge_recorded(
        s2,
        d2,
        src,
        transition_on_board(src, d, cells),
    ) by {
        lemma_recorded_monotone(s1, s2, d1, d2, src, transition_on_board(src, d, cells));
    }
}

/// A partially expanded source stays so when the registry and the
/// edge set grow.
proof fn lemma_src_upto_monotone(
    s1: Seq<PlayerState>,
    s2: Seq<PlayerState>,
    d1: Set<(int, int)>,
    d2: Set<(int, int)>,
    cells: Set<(int, int, int)>,
    src: StateV,
    n: int,
)
    requires
        src_expanded_upto(s1, d1, cells, src, n),
        s2.len() >= s1.len(),
        forall|i: int| 0 <= i < s1.len() ==> s2[i] == s1[i],
        d1.subset_of(d2),
    ensures
        src_expanded_upto(s2, d2, cells, src, n),
{
    assert forall|j: int|
        0 <= j < n implies (transition_on_board(src, #[trigger] dir_at(j), cells) == StateV::Dead
        || edge_recorded(s2, d2, src, transition_on_board(src, dir_at(j), cells))) by {
        if transition_on_board(src, dir_at(j), cells) != StateV::Dead {
            lemma_recorded_monotone(s1, s2, d1, d2, src, transition_on_board(src, dir_at(j), cells));
        }
    }
}

/// Expanded flat tails stay expanded when the registry and the edge
/// set grow.
proof fn lemma_flat_tails_monotone(
    s1: Seq<PlayerState>,
    s2: Seq<PlayerState>,
    d1: Set<(int, int)>,
    d2: Set<(int, int)>,
    cells: Set<(int, int, int)>,
    c: (int, int, int),
    n: int,
)
    requires
        flat_tails_upto(s1, d1, cells, c, n),
        s2.len() >= s1.len(),
        forall|i: int| 0 <= i < s1.len() ==> s2[i] == s1[i],
        d1.subset_of(d2),
    ensures
        flat_tails_upto(s2, d2, cells, c, n),
{
    assert forall|j: int|
        0 <= j < n implies (!cells.contains(cube_add(c, delta(#[trigger] dir_at(j))))
        || src_expanded(s2, d2, cells, StateV::Flat(c, cube_add(c, delta(dir_at(j)))))) by {
        if cells.contains(cube_add(c, delta(dir_at(j)))) {
            lemma_src_expanded_monotone(
                s1,
                s2,
                d1,
                d2,
                cells,
                StateV::Flat(c, cube_add(c, delta(dir_at(j)))),
            );
        }
    }
}

/// Expanded cells stay expanded when the registry and the edge set
/// grow.
proof fn lemma_cells_upto_monotone(
    s1: Seq<PlayerState>,
    s2: Seq<PlayerState>,
    d1: Set<(int, int)>,
    d2: Set<(int, int)>,
    cells: Set<(int, int, int)>,
    cellsq: Seq<Hex>,
    n: int,
)
    requires
        cells_expanded_upto(s1, d1, cells, cellsq, n),
        s2.len() >= s1.len(),
        forall|i: int| 0 <= i < s1.len() ==> s2[i] == s1[i],
        d1.subset_of(d2),
    ensures
        cells_expanded_upto(s2, d2, cells, cellsq, n),
{
    assert forall|ci: int|
        0 <= ci < n implies cell_expanded(s2, d2, cells, (#[trigger] cellsq[ci])@) by {
        let c = cellsq[ci]@;
        lemma_src_expanded_monotone(s1, s2, d1, d2, cells, StateV::Standing(c));
        assert forall|d: HexDirection|
            cells.contains(cube_add(c, #[trigger] delta(d))) implies src_expanded(
            s2,
            d2,
            cells,
            StateV::Flat(c, cube_add(c, delta(d))),
        ) by {
            lemma_src_expanded_monotone(
                s1,
                s2,
                d1,
                d2,
                cells,
                StateV::Flat(c, cube_add(c, delta(d))),
            );
        }
    }
}

/// A source expanded under all six directions is expanded under every
/// direction.
proof fn lemma_src_expanded_full(
    states: Seq<PlayerState>,
    dom: Set<(int, int)>,
    cells: Set<(int, int, int)>,
    src: StateV,
)
    requires
        src_expanded_upto(states, dom, cells, src, 6),
    ensures
        src_expanded(states, dom, cells, src),
{
    assert forall|d: HexDirection|
        (#[trigger] transition_on_board(src, d, cells)) != StateV::Dead implies edge_recorded(
        states,
        dom,
        src,
        transition_on_board(src, d, cells),
    ) by {
        lemma_dir_at_index(d);
        assert(transition_on_board(src, dir_at(dir_index(d)), cells) != StateV::Dead);
    }
}

/// Each registered state sits at exactly one position, found by its
/// model.
proof fn lemma_reg_index_of(states: Seq<PlayerState>, i: int)
    requires
        distinct_states(states),
        0 <= i < states.len(),
    ensures
        reg_contains(states, states[i]@),
        reg_index(states, states[i]@) == i,
{
    assert(reg_contains(states, states[i]@));
    let j = choose|j: int| 0 <= j < states.len() && (#[trigger] states[j])@ == states[i]@;
    if j != i {
        if j < i {
            assert(states[j]@ != states[i]@);
        } else {
            assert(states[i]@ != states[j]@);
        }
    }
}

/// Returns the node of the given state, registering the state and
/// adding its graph node if it is new.
#[verifier::loop_isolation(false)]
fn ensure_node(
    map: &HexMap,
    states: &mut Vec<PlayerState>,
    nodes: &mut Vec<NodeIndex<u32>>,
    g: &mut MoveGraph,
    st: PlayerState,
) -> (k: usize)
    requires
        reg_wf(old(states)@, old(nodes)@, *old(g), map.cell_set()),
        valid_state(map.cell_set(), st@),
        old(states)@.len() < 0x4000_0000,
    ensures
        reg_wf(final(states)@, final(nodes)@, *final(g), map.cell_set()),
        graph_edges(*final(g)) == graph_edges(*old(g)),
        k < final(states)@.len(),
        final(states)@[k as int]@ == st@,
        old(states)@.len() <= final(states)@.len() <= old(states)@.len() + 1,
        forall|i: int| 0 <= i < old(states)@.len() ==> final(states)@[i] == old(states)@[i],
{
    let mut i: usize = 0;
    while i < states.len()
        invariant
            i <= states@.len(),
            forall|k2: int| 0 <= k2 < i ==> (#[trigger] states@[k2])@ != st@,
        decreases states@.len() - i,
    {
        if states[i] == st {
            return i;
        }
        proof {
            if states@[i as int]@ == st@ {
                lemma_state_view_injective(states@[i as int], st);
            }
        }
        i += 1;
    }
    let idx = graph_add_node(g, states.len() as u64);
    nodes.push(idx);
    states.push(st);
    states.len() - 1
}

/// With every board cell expanded, every legal move on the board is
/// recorded in the graph.
proof fn lemma_moves_all_recorded(
    states: Seq<PlayerState>,
    dom: Set<(int, int)>,
    cells: Set<(int, int, int)>,
    cellsq: Seq<Hex>,
    a: StateV,
    b: StateV,
)
    requires
        cells == crate::board::views_of(cellsq),
        cells_expanded_upto(states, dom, cells, cellsq, cellsq.len() as int),
        valid_state(cells, a),
        board_step(cells, a, b),
    ensures
        edge_recorded(states, dom, a, b),
{
    let d = choose|d: HexDirection| (#[trigger] transition_on_board(a, d, cells)) == b;
    let mapped = cellsq.map_values(|x: Hex| x@);
    match a {
        StateV::Standing(h) => {
            let k = choose|k: int| 0 <= k < mapped.len() && mapped[k] == h;
            assert(cellsq[k]@ == h);
            assert(cell_expanded(states, dom, cells, cellsq[k]@));
            assert(transition_on_board(StateV::Standing(h), d, cells) == b);
        },
        StateV::Flat(h, t) => {
            let k = choose|k: int| 0 <= k < mapped.len() && mapped[k] == h;
            assert(cellsq[k]@ == h);
            assert(cell_expanded(states, dom, cells, cellsq[k]@));
            let diff = dir_between(t, h)->Some_0;
            lemma_delta_opposite(diff);
            assert(t == cube_add(h, delta(opposite_dir(diff))));
            assert(cells.contains(cube_add(h, delta(opposite_dir(diff)))));
            assert(src_expanded(states, dom, cells, StateV::Flat(h, t)));
            assert(transition_on_board(StateV::Flat(h, t), d, cells) == b);
        },
        StateV::Dead => {},
    }
}

/// A legal move sequence between two registered states maps to a walk
/// of the same length through the recorded edges, by registry
/// position.
proof fn lemma_move_seq_to_id_path(
    states: Seq<PlayerState>,
    dom: Set<(int, int)>,
    cells: Set<(int, int, int)>,
    cellsq: Seq<Hex>,
    w: Seq<StateV>,
    si: int,
    gi: int,
)
    requires
        distinct_states(states),
        cells == crate::board::views_of(cellsq),
        cells_expanded_upto(states, dom, cells, cellsq, cellsq.len() as int),
        0 <= si < states.len(),
        0 <= gi < states.len(),
        is_move_seq(cells, w, states[si]@, states[gi]@),
    ensures
        is_id_path(dom, Seq::new(w.len(), |k: int| reg_index(states, w[k])), si, gi),
{
    let q = Seq::new(w.len(), |k: int| reg_index(states, w[k]));
    lemma_reg_index_of(states, si);
    lemma_reg_index_of(states, gi);
    assert(q[0] == si);
    assert(q[q.len() - 1] == gi);
    assert forall|k: int| 0 <= k < q.len() - 1 implies dom.contains((#[trigger] q[k], q[k + 1])) by {
        assert(valid_state(cells, w[k]));
        assert(board_step(cells, w[k], w[k + 1]));
        lemma_moves_all_recorded(states, dom, cells, cellsq, w[k], w[k + 1]);
        let (i, j) = choose|i: int, j: int|
            0 <= i < states.len() && 0 <= j < states.len() && (#[trigger] states[i])@ == w[k] && (
            #[trigger] states[j])@ == w[k + 1] && dom.contains((i, j));
        lemma_reg_index_of(states, i);
        lemma_reg_index_of(states, j);
        assert(q[k] == i && q[k + 1] == j);
    }
}

/// With every cell expanded and no walk of node ids joining the two
/// registered states, no legal move sequence joins them either.
proof fn lemma_no_sequence(
    states: Seq<PlayerState>,
    dom: Set<(int, int)>,
    cells: Set<(int, int, int)>,
    cellsq: Seq<Hex>,
    si: int,
    gi: int,
    sv: StateV,
    gv: StateV,
)
    requires
        distinct_states(states),
        cells == crate::board::views_of(cellsq),
        cells_expanded_upto(states, dom, cells, cellsq, cellsq.len() as int),
        0 <= si < states.len(),
        0 <= gi < states.len(),
        states[si]@ == sv,
        states[gi]@ == gv,
        forall|q: Seq<int>| !is_id_path(dom, q, si, gi),
    ensures
        forall|w: Seq<StateV>| !is_move_seq(cells, w, sv, gv),
{
    assert forall|w: Seq<StateV>| !is_move_seq(cells, w, sv, gv) by {
        if is_move_seq(cells, w, sv, gv) {
            lemma_move_seq_to_id_path(states, dom, cells, cellsq, w, si, gi);
        }
    }
}

/// A length bound on every walk of node ids between the two
/// registered states bounds every legal move sequence between them.
proof fn lemma_minimal_sequence(
    states: Seq<PlayerState>,
    dom: Set<(int, int)>,
    cells: Set<(int, int, int)>,
    cellsq: Seq<Hex>,
    si: int,
    gi: int,
    sv: StateV,
    gv: StateV,
    plen: int,
)
    requires
        distinct_states(states),
        cells == crate::board::views_of(cellsq),
        cells_expanded_upto(states, dom, cells, cellsq, cellsq.len() as int),
        0 <= si < states.len(),
        0 <= gi < states.len(),
        states[si]@ == sv,
        states[gi]@ == gv,
        forall|q: Seq<int>| is_id_path(dom, q, si, gi) ==> q.len() >= plen,
    ensures
        forall|w: Seq<StateV>| is_move_seq(cells, w, sv, gv) ==> w.len() >= plen,
{
    assert forall|w: Seq<StateV>| is_move_seq(cells, w, sv, gv) implies w.len() >= plen by {
        lemma_move_seq_to_id_path(states, dom, cells, cellsq, w, si, gi);
        let q = Seq::new(w.len(), |k: int| reg_index(states, w[k]));
        assert(is_id_path(dom, q, si, gi));
    }
}

/// The reconstructed state sequence, read back to front, is a legal
/// move sequence: every visited node is a registered valid state and
/// consecutive nodes are joined by sound edges.
proof fn lemma_result_is_move_seq(
    states: Seq<PlayerState>,
    dom: Set<(int, int)>,
    cells: Set<(int, int, int)>,
    pids: Seq<int>,
    v: Seq<PlayerState>,
    sv: StateV,
    gv: StateV,
)
    requires
        forall|p: (int, int)| #[trigger]
            dom.contains(p) ==> 0 <= p.0 < states.len() && 0 <= p.1 < states.len() && board_step(
                cells,
                states[p.0]@,
                states[p.1]@,
            ),
        forall|k: int| 0 <= k < states.len() ==> valid_state(cells, (#[trigger] states[k])@),
        pids.len() >= 1,
        v.len() == pids.len(),
        forall|k: int| 0 <= k < pids.len() ==> 0 <= #[trigger] pids[k] < states.len(),
        forall|k: int| 0 <= k < pids.len() - 1 ==> dom.contains((#[trigger] pids[k], pids[k + 1])),
        forall|j: int| 0 <= j < v.len() ==> #[trigger] v[j] == states[pids[v.len() - 1 - j]],
        states[pids[0]]@ == sv,
        states[pids[pids.len() - 1]]@ == gv,
    ensures
        is_move_seq(cells, seq_models(v).reverse(), sv, gv),
{
    let rev = seq_models(v).reverse();
    assert forall|j: int| 0 <= j < rev.len() implies #[trigger] rev[j] == states[pids[j]]@ by {
        assert(v[v.len() - 1 - j] == states[pids[j]]);
    }
    assert(rev[0] == sv);
    assert(rev[rev.len() - 1] == gv);
    assert forall|k: int| 0 <= k < rev.len() - 1 implies board_step(
        cells,
        #[trigger] rev[k],
        rev[k + 1],
    ) by {
        assert(dom.contains((pids[k], pids[k + 1])));
    }
}

/// Builds the move graph of the board: registers every standing and
/// flat state over its cells, records every live move as a unit
/// edge, and returns the registry with the nodes of the start and
/// goal states.
#[verifier::loop_isolation(false)]
#[verifier::rlimit(100)]
fn build_move_graph(map: &HexMap, hex_start: Hex) -> (r: (
    Vec<PlayerState>,
    Vec<NodeIndex<u32>>,
    MoveGraph,
    usize,
    usize,
))
    requires
        map.wf(),
        map.cell_set().contains(hex_start@),
    ensures
        reg_wf(r.0@, r.1@, r.2, map.cell_set()),
        edges_ok(r.0@, r.2, map.cell_set()),
        cells_expanded_upto(
            r.0@,
            graph_edges(r.2).dom(),
            map.cell_set(),
            map.cells@,
            map.cells@.len() as int,
        ),
        r.3 < r.0@.len(),
        r.4 < r.0@.len(),
        r.0@[r.3 as int]@ == StateV::Standing(hex_start@),
        r.0@[r.4 as int]@ == StateV::Standing(map.goal@),
{
    let ghost cells = map.cell_set();
        let mut states: Vec<PlayerState> = Vec::new();
        let mut nodes: Vec<NodeIndex<u32>> = Vec::new();
        let mut g = graph_new();
        proof {
            assert(graph_edges(g).dom() =~= Set::empty());
        }
        let si = ensure_node(map, &mut states, &mut nodes, &mut g, PlayerState::Standing(hex_start));
        let gi = ensure_node(map, &mut states, &mut nodes, &mut g, PlayerState::Standing(map.goal));
        let mut ci: usize = 0;
        while ci < map.cells.len()
            invariant
                reg_wf(states@, nodes@, g, cells),
                edges_ok(states@, g, cells),
                cells_expanded_upto(states@, graph_edges(g).dom(), cells, map.cells@, ci as int),
                si < states@.len(),
                gi < states@.len(),
                states@[si as int]@ == StateV::Standing(hex_start@),
                states@[gi as int]@ == StateV::Standing(map.goal@),
                states@.len() <= 2 + 49 * ci,
                graph_edges(g).dom().len() <= 42 * ci,
                ci <= map.cells@.len(),
            decreases map.cells@.len() - ci,
        {
            let head = map.cells[ci];
            proof {
                assert(map.cells@.map_values(|h: Hex| h@)[ci as int] == head@);
                assert(cells.contains(head@));
            }
            let cur = PlayerState::Standing(head);
            let ghost s0 = states@;
            let ghost dom0 = graph_edges(g).dom();
            let ki = ensure_node(map, &mut states, &mut nodes, &mut g, cur);
            proof {
                lemma_cells_upto_monotone(
                    s0,
                    states@,
                    dom0,
                    graph_edges(g).dom(),
                    cells,
                    map.cells@,
                    ci as int,
                );
            }
            let mut di: usize = 0;
            while di < 6
                invariant
                    reg_wf(states@, nodes@, g, cells),
                    edges_ok(states@, g, cells),
                    cells_expanded_upto(
                        states@,
                        graph_edges(g).dom(),
                        cells,
                        map.cells@,
                        ci as int,
                    ),
                    src_expanded_upto(
                        states@,
                        graph_edges(g).dom(),
                        cells,
                        StateV::Standing(head@),
                        di as int,
                    ),
                    ki < states@.len(),
                    states@[ki as int]@ == StateV::Standing(head@),
                    si < states@.len(),
                    gi < states@.len(),
                    states@[si as int]@ == StateV::Standing(hex_start@),
                    states@[gi as int]@ == StateV::Standing(map.goal@),
                    states@.len() <= 2 + 49 * ci + 1 + di,
                    graph_edges(g).dom().len() <= 42 * ci + di,
                    di <= 6,
                decreases 6 - di,
            {
                let d = HexDirection::from_usize(di);
                let next = cur.next_state_in_map(d, map);
                match next {
                    PlayerState::Dead => {
                        proof {
                            assert(transition_on_board(StateV::Standing(head@), dir_at(di as int), cells)
                                == StateV::Dead);
                        }
                    },
                    _ => {
                        proof {
                            assert(valid_state(cells, next@));
                        }
                        let ghost s1 = states@;
                        let ghost dom1 = graph_edges(g).dom();
                        let kj = ensure_node(map, &mut states, &mut nodes, &mut g, next);
                        proof {
                            lemma_cells_upto_monotone(
                                s1,
                                states@,
                                dom1,
                                graph_edges(g).dom(),
                                cells,
                                map.cells@,
                                ci as int,
                            );
                            lemma_src_upto_monotone(
                                s1,
                                states@,
                                dom1,
                                graph_edges(g).dom(),
                                cells,
                                StateV::Standing(head@),
                                di as int,
                            );
                        }
                        let ghost s2 = states@;
                        let ghost dom2 = graph_edges(g).dom();
                        let ni = nodes[ki];
                        let nj = nodes[kj];
                        graph_update_edge(&mut g, ni, nj, 1);
                        proof {
                            vstd::set::axiom_set_insert_len(dom2, (ki as int, kj as int));
                            lemma_cells_upto_monotone(
                                s2,
                                states@,
                                dom2,
                                graph_edges(g).dom(),
                                cells,
                                map.cells@,
                                ci as int,
                            );
                            lemma_src_upto_monotone(
                                s2,
                                states@,
                                dom2,
                                graph_edges(g).dom(),
                                cells,
                                StateV::Standing(head@),
                                di as int,
                            );
                            assert(states@[ki as int]@ == StateV::Standing(head@)
                                && states@[kj as int]@ == next@ && graph_edges(g).dom().contains(
                                (ki as int, kj as int),
                            ));
                            assert(edge_recorded(
                                states@,
                                graph_edges(g).dom(),
                                StateV::Standing(head@),
                                next@,
                            ));
                            assert((transition_on_board(states@[ki as int]@, d, cells))
                                == states@[kj as int]@);
                            assert(board_step(cells, states@[ki as int]@, states@[kj as int]@));
                        }
                    },
                }
                di += 1;
            }
            proof {
                lemma_src_expanded_full(
                    states@,
                    graph_edges(g).dom(),
                    cells,
                    StateV::Standing(head@),
                );
            }
            let mut ti: usize = 0;
            while ti < 6
                invariant
                    reg_wf(states@, nodes@, g, cells),
                    edges_ok(states@, g, cells),
                    cells_expanded_upto(
                        states@,
                        graph_edges(g).dom(),
                        cells,
                        map.cells@,
                        ci as int,
                    ),
                    src_expanded(states@, graph_edges(g).dom(), cells, StateV::Standing(head@)),
                    flat_tails_upto(states@, graph_edges(g).dom(), cells, head@, ti as int),
                    si < states@.len(),
                    gi < states@.len(),
                    states@[si as int]@ == StateV::Standing(hex_start@),
                    states@[gi as int]@ == StateV::Standing(map.goal@),
                    states@.len() <= 2 + 49 * ci + 7 + 7 * ti,
                    graph_edges(g).dom().len() <= 42 * ci + 6 + 6 * ti,
                    ti <= 6,
                decreases 6 - ti,
            {
                let td = HexDirection::from_usize(ti);
                let tail = head.neighbor(td);
                if map.is_in_map(tail) {
                    let fcur = PlayerState::Flat(head, tail);
                    proof {
                        lemma_delta_opposite(td);
                        lemma_dir_between_neighbor(tail@, opposite_dir(td));
                        assert(cube_add(tail@, delta(opposite_dir(td))) == head@);
                        assert(valid_state(cells, fcur@));
                        crate::board::lemma_cell_bound(map, tail@);
                    }
                    let ghost s3 = states@;
                    let ghost dom3 = graph_edges(g).dom();
                    let kf = ensure_node(map, &mut states, &mut nodes, &mut g, fcur);
                    proof {
                        lemma_cells_upto_monotone(
                            s3,
                            states@,
                            dom3,
                            graph_edges(g).dom(),
                            cells,
                            map.cells@,
                            ci as int,
                        );
                        lemma_src_expanded_monotone(
                            s3,
                            states@,
                            dom3,
                            graph_edges(g).dom(),
                            cells,
                            StateV::Standing(head@),
                        );
                        lemma_flat_tails_monotone(
                            s3,
                            states@,
                            dom3,
                            graph_edges(g).dom(),
                            cells,
                            head@,
                            ti as int,
                        );
                    }
                    let mut d2: usize = 0;
                    while d2 < 6
                        invariant
                            reg_wf(states@, nodes@, g, cells),
                            edges_ok(states@, g, cells),
                            cells_expanded_upto(
                                states@,
                                graph_edges(g).dom(),
                                cells,
                                map.cells@,
                                ci as int,
                            ),
                            src_expanded(
                                states@,
                                graph_edges(g).dom(),
                                cells,
                                StateV::Standing(head@),
                            ),
                            flat_tails_upto(states@, graph_edges(g).dom(), cells, head@, ti as int),
                            src_expanded_upto(
                                states@,
                                graph_edges(g).dom(),
                                cells,
                                fcur@,
                                d2 as int,
                            ),
                            kf < states@.len(),
                            states@[kf as int]@ == fcur@,
                            si < states@.len(),
                            gi < states@.len(),
                            states@[si as int]@ == StateV::Standing(hex_start@),
                            states@[gi as int]@ == StateV::Standing(map.goal@),
                            states@.len() <= 2 + 49 * ci + 7 + 7 * ti + 1 + d2,
                            graph_edges(g).dom().len() <= 42 * ci + 6 + 6 * ti + d2,
                            d2 <= 6,
                        decreases 6 - d2,
                    {
                        let d = HexDirection::from_usize(d2);
                        let next = fcur.next_state_in_map(d, map);
                        match next {
                            PlayerState::Dead => {
                                proof {
                                    assert(transition_on_board(fcur@, dir_at(d2 as int), cells)
                                        == StateV::Dead);
                                }
                            },
                            _ => {
                                proof {
                                    assert(valid_state(cells, next@));
                                }
                                let ghost s4 = states@;
                                let ghost dom4 = graph_edges(g).dom();
                                let kj = ensure_node(map, &mut states, &mut nodes, &mut g, next);
                                proof {
                                    lemma_cells_upto_monotone(
                                        s4,
                                        states@,
                                        dom4,
                                        graph_edges(g).dom(),
                                        cells,
                                        map.cells@,
                                        ci as int,
                                    );
                                    lemma_src_expanded_monotone(
                                        s4,
                                        states@,
                                        dom4,
                                        graph_edges(g).dom(),
                                        cells,
                                        StateV::Standing(head@),
                                    );
                                    lemma_flat_tails_monotone(
                                        s4,
                                        states@,
                                        dom4,
                                        graph_edges(g).dom(),
                                        cells,
                                        head@,
                                        ti as int,
                                    );
                                    lemma_src_upto_monotone(
                                        s4,
                                        states@,
                                        dom4,
                                        graph_edges(g).dom(),
                                        cells,
                                        fcur@,
                                        d2 as int,
                                    );
                                }
                                let ghost s5 = states@;
                                let ghost dom5 = graph_edges(g).dom();
                                let ni = nodes[kf];
                                let nj = nodes[kj];
                                graph_update_edge(&mut g, ni, nj, 1);
                                proof {
                                    vstd::set::axiom_set_insert_len(dom5, (kf as int, kj as int));
                                    lemma_cells_upto_monotone(
                                        s5,
                                        states@,
                                        dom5,
                                        graph_edges(g).dom(),
                                        cells,
                                        map.cells@,
                                        ci as int,
                                    );
                                    lemma_src_expanded_monotone(
                                        s5,
                                        states@,
                                        dom5,
                                        graph_edges(g).dom(),
                                        cells,
                                        StateV::Standing(head@),
                                    );
                                    lemma_flat_tails_monotone(
                                        s5,
                                        states@,
                                        dom5,
                                        graph_edges(g).dom(),
                                        cells,
                                        head@,
                                        ti as int,
                                    );
                                    lemma_src_upto_monotone(
                                        s5,
                                        states@,
                                        dom5,
                                        graph_edges(g).dom(),
                                        cells,
                                        fcur@,
                                        d2 as int,
                                    );
                                    assert(states@[kf as int]@ == fcur@ && states@[kj as int]@
                                        == next@ && graph_edges(g).dom().contains(
                                        (kf as int, kj as int),
                                    ));
                                    assert(edge_recorded(
                                        states@,
                                        graph_edges(g).dom(),
                                        fcur@,
                                        next@,
                                    ));
                                    assert((transition_on_board(states@[kf as int]@, d, cells))
                                        == states@[kj as int]@);
                                    assert(board_step(
                                        cells,
                                        states@[kf as int]@,
                                        states@[kj as int]@,
                                    ));
                                }
                            },
                        }
                        d2 += 1;
                    }
                    proof {
                        lemma_src_expanded_full(states@, graph_edges(g).dom(), cells, fcur@);
                        assert(tail@ == cube_add(head@, delta(dir_at(ti as int))));
                    }
                } else {
                    proof {
                        assert(!cells.contains(cube_add(head@, delta(dir_at(ti as int)))));
                    }
                }
                ti += 1;
            }
            proof {
                assert forall|d: HexDirection|
                    cells.contains(cube_add(head@, #[trigger] delta(d))) implies src_expanded(
                    states@,
                    graph_edges(g).dom(),
                    cells,
                    StateV::Flat(head@, cube_add(head@, delta(d))),
                ) by {
                    lemma_dir_at_index(d);
                    assert(!cells.contains(cube_add(head@, delta(dir_at(dir_index(d)))))
                        || src_expanded(
                        states@,
                        graph_edges(g).dom(),
                        cells,
                        StateV::Flat(head@, cube_add(head@, delta(dir_at(dir_index(d))))),
                    ));
                }
                assert(cell_expanded(states@, graph_edges(g).dom(), cells, head@));
            }
            ci += 1;
        }
    (states, nodes, g, si, gi)
}

impl HexMap {
    /// Expands every creature state reachable on this board into a
    /// move graph and searches it for a minimum-length move sequence
    /// from standing on `hex_start` to standing on the goal cell. A
    /// result runs from the goal back to the start, one state per
    /// visited posture; `None` says no move sequence joins the two,
    /// in particular whenever `hex_start` is not a valid cell.
    #[verifier::loop_isolation(false)]
    #[verifier::rlimit(100)]
    pub fn solve_path(&self, hex_start: Hex) -> (r: Option<Vec<PlayerState>>)
        requires
            self.wf(),
        ensures
            match r {
                Some(v) => {
                    &&& v@.len() >= 1
                    &&& is_move_seq(
                        self.cell_set(),
                        seq_models(v@).reverse(),
                        StateV::Standing(hex_start@),
                        StateV::Standing(self.goal@),
                    )
                    &&& forall|w: Seq<StateV>|
                        is_move_seq(
                            self.cell_set(),
                            w,
                            StateV::Standing(hex_start@),
                            StateV::Standing(self.goal@),
                        ) ==> w.len() >= v@.len()
                },
                None => forall|w: Seq<StateV>|
                    !is_move_seq(
                        self.cell_set(),
                        w,
                        StateV::Standing(hex_start@),
                        StateV::Standing(self.goal@),
                    ),
            },
            !self.cell_set().contains(hex_start@) ==> r is None,
            self.cell_set().contains(hex_start@) && hex_start@ == self.goal@ ==> (r matches Some(v)
                && v@.len() == 1 && v@[0]@ == StateV::Standing(self.goal@)),
    {
        let ghost cells = self.cell_set();
        if !self.is_in_map(hex_start) {
            proof {
                assert forall|w: Seq<StateV>|
                    !is_move_seq(
                        cells,
                        w,
                        StateV::Standing(hex_start@),
                        StateV::Standing(self.goal@),
                    ) by {
                    if is_move_seq(
                        cells,
                        w,
                        StateV::Standing(hex_start@),
                        StateV::Standing(self.goal@),
                    ) {
                        assert(valid_state(cells, w[0]));
                    }
                }
            }
            return None;
        }
        let (states, nodes, g, si, gi) = build_move_graph(self, hex_start);
        let result = graph_astar(&g, nodes[si], nodes[gi]);
        match result {
            None => {
                proof {
                    lemma_no_sequence(
                        states@,
                        graph_edges(g).dom(),
                        cells,
                        self.cells@,
                        si as int,
                        gi as int,
                        StateV::Standing(hex_start@),
                        StateV::Standing(self.goal@),
                    );
                    if cells.contains(hex_start@) && hex_start@ == self.goal@ {
                        let w0 = seq![StateV::Standing(hex_start@)];
                        assert(w0[0] == StateV::Standing(hex_start@));
                        assert(is_move_seq(
                            cells,
                            w0,
                            StateV::Standing(hex_start@),
                            StateV::Standing(self.goal@),
                        ));
                    }
                }
                None
            },
            Some(p) => {
                proof {
                    assert forall|k: int|
                        0 <= k < p@.len() implies 0 <= node_id(#[trigger] p@[k]) < states@.len() by {
                        if k < p@.len() - 1 {
                            assert(graph_edges(g).dom().contains(
                                (node_id(p@[k]), node_id(p@[k + 1])),
                            ));
                        } else {
                            assert(node_id(p@[k]) == gi as int);
                        }
                    }
                }
                let mut v: Vec<PlayerState> = Vec::new();
                let mut m: usize = p.len();
                while m > 0
                    invariant
                        m <= p@.len(),
                        v@.len() == p@.len() - m,
                        forall|j: int|
                            0 <= j < v@.len() ==> v@[j] == states@[node_id(
                                p@[p@.len() - 1 - j],
                            )],
                    decreases m,
                {
                    m -= 1;
                    let idx = node_index_value(p[m]);
                    v.push(states[idx]);
                }
                proof {
                    let dom = graph_edges(g).dom();
                    let pids = Seq::new(p@.len(), |k: int| node_id(p@[k]));
                    assert forall|k: int|
                        0 <= k < pids.len() - 1 implies dom.contains(
                        (#[trigger] pids[k], pids[k + 1]),
                    ) by {
                        assert(dom.contains((node_id(p@[k]), node_id(p@[k + 1]))));
                    }
                    assert forall|j: int| 0 <= j < v@.len() implies #[trigger] v@[j]
                        == states@[pids[v@.len() - 1 - j]] by {
                        assert(v@[j] == states@[node_id(p@[p@.len() - 1 - j])]);
                    }
                    lemma_result_is_move_seq(
                        states@,
                        dom,
                        cells,
                        pids,
                        v@,
                        StateV::Standing(hex_start@),
                        StateV::Standing(self.goal@),
                    );
                    assert forall|q: Seq<int>|
                        is_id_path(dom, q, si as int, gi as int) implies q.len()
                        >= pids.len() by {
                        assert(is_id_path(
                            dom,
                            q,
                            node_id(nodes@[si as int]),
                            node_id(nodes@[gi as int]),
                        ));
                    }
                    lemma_minimal_sequence(
                        states@,
                        dom,
                        cells,
                        self.cells@,
                        si as int,
                        gi as int,
                        StateV::Standing(hex_start@),
                        StateV::Standing(self.goal@),
                        pids.len() as int,
                    );
                    if cells.contains(hex_start@) && hex_start@ == self.goal@ {
                        let w0 = seq![StateV::Standing(hex_start@)];
                        assert(w0[0] == StateV::Standing(hex_start@));
                        assert(is_move_seq(
                            cells,
                            w0,
                            StateV::Standing(hex_start@),
                            StateV::Standing(self.goal@),
                        ));
                        assert(v@.len() == 1);
                        assert(v@[0] == states@[node_id(p@[p@.len() - 1])]);
                        assert(v@[0]@ == StateV::Standing(self.goal@));
                    }
                }
                Some(v)
            },
        }
    }
}

} // verus!
