use crate::board::HexMap;
use crate::hex::cube_add;
use crate::hex::cube_scale;
use crate::hex::cube_within;
use crate::hex::delta;
use crate::hex::dir_between;
use crate::hex::lemma_dir_between_neighbor;
use crate::hex::opposite_dir;
use crate::hex::Hex;
use crate::hex::HexDirection;
use vstd::prelude::*;

verus! {

/// The locomotion posture of the two-cell creature: standing on one
/// cell, lying flat over two adjacent cells, or dead.
#[derive(Debug, Clone, Copy, Hash, PartialEq, Eq, Structural)]
pub enum PlayerState {
    Standing(Hex),
    Flat(Hex, Hex),
    Dead,
}

/// The mathematical model of a creature state, over cube triples.
pub enum StateV {
    Standing((int, int, int)),
    Flat((int, int, int), (int, int, int)),
    Dead,
}

impl View for PlayerState {
    type V = StateV;

    open spec fn view(&self) -> StateV {
        match self {
            PlayerState::Standing(h) => StateV::Standing(h@),
            PlayerState::Flat(h, t) => StateV::Flat(h@, t@),
            PlayerState::Dead => StateV::Dead,
        }
    }
}

/// The pure locomotion rule over the infinite plane. A standing
/// creature stretches two cells ahead; a flat creature contracts
/// forward when pushed along its facing, contracts backward when
/// pushed against it, and translates rigidly otherwise. `Dead` is
/// absorbing.
pub open spec fn transition(s: StateV, d: HexDirection) -> StateV {
    match s {
        StateV::Standing(h) => StateV::Flat(
            cube_add(h, cube_scale(delta(d), 2)),
            cube_add(h, delta(d)),
        ),
        StateV::Flat(h, t) => match dir_between(t, h) {
            Some(diff) => if diff == d {
                StateV::Standing(cube_add(h, delta(d)))
            } else if diff == opposite_dir(d) {
                StateV::Standing(cube_add(t, delta(d)))
            } else {
                StateV::Flat(cube_add(h, delta(d)), cube_add(t, delta(d)))
            },
            None => StateV::Dead,
        },
        StateV::Dead => StateV::Dead,
    }
}

/// The board-aware rule: the pure transition, collapsed to `Dead`
/// whenever any occupied cell of the result lies outside the board.
pub open spec fn transition_on_board(
    s: StateV,
    d: HexDirection,
    cells: Set<(int, int, int)>,
) -> StateV {
    let n = transition(s, d);
    match n {
        StateV::Standing(h) => if cells.contains(h) {
            n
        } else {
            StateV::Dead
        },
        StateV::Flat(h, t) => if cells.contains(h) && cells.contains(t) {
            n
        } else {
            StateV::Dead
        },
        StateV::Dead => StateV::Dead,
    }
}

/// Whether every occupied cell of the state lies within `m` of the
/// origin.
pub open spec fn state_within(s: StateV, m: int) -> bool {
    match s {
        StateV::Standing(h) => cube_within(h, m),
        StateV::Flat(h, t) => cube_within(h, m) && cube_within(t, m),
        StateV::Dead => true,
    }
}

/// A flat state must hold adjacent head and tail; other states carry
/// no such obligation.
pub open spec fn state_flat_adjacent(s: StateV) -> bool {
    match s {
        StateV::Flat(h, t) => dir_between(t, h) is Some,
        _ => true,
    }
}

impl PlayerState {
    /// Advances the state under a direction input by the pure rule,
    /// ignoring any board.
    pub fn next_state(&self, direction: HexDirection) -> (result: PlayerState)
        requires
            state_flat_adjacent(self@),
            state_within(self@, 1_000_000_000),
        ensures
            result@ == transition(self@, direction),
            state_flat_adjacent(result@),
    {
        let delta_hex = direction.to_hex();
        match self {
            PlayerState::Standing(head) => {
                proof {
                    lemma_dir_between_neighbor(cube_add(head@, delta(direction)), direction);
                    assert(cube_add(cube_add(head@, delta(direction)), delta(direction))
                        == cube_add(head@, cube_scale(delta(direction), 2)));
                }
                PlayerState::Flat(head.add(delta_hex.scale(2)), head.add(delta_hex))
            },
            PlayerState::Flat(head, tail) => {
                let diff = HexDirection::get_dir_from_to(*tail, *head);
                if diff == direction {
                    PlayerState::Standing(head.add(delta_hex))
                } else if diff == direction.opposite() {
                    PlayerState::Standing(tail.add(delta_hex))
                } else {
                    PlayerState::Flat(head.add(delta_hex), tail.add(delta_hex))
                }
            },
            PlayerState::Dead => PlayerState::Dead,
        }
    }

    /// Advances the state under a direction input and validates every
    /// occupied cell of the result against board membership; a result
    /// not fully contained in the board collapses to `Dead`.
    pub fn next_state_in_map(&self, direction: HexDirection, map: &HexMap) -> (result: PlayerState)
        requires
            state_flat_adjacent(self@),
            state_within(self@, 1_000_000_000),
        ensures
            result@ == transition_on_board(self@, direction, map.cell_set()),
            state_flat_adjacent(result@),
    {
        let state = self.next_state(direction);
        match state {
            PlayerState::Standing(hex) => {
                if map.is_in_map(hex) {
                    state
                } else {
                    PlayerState::Dead
                }
            },
            PlayerState::Flat(head, tail) => {
                if map.is_in_map(head) && map.is_in_map(tail) {
                    state
                } else {
                    PlayerState::Dead
                }
            },
            PlayerState::Dead => PlayerState::Dead,
        }
    }
}

/// `Dead` is absorbing: every direction input leaves it unchanged,
/// under the pure rule and under every board.
pub proof fn lemma_dead_absorbing(d: HexDirection, cells: Set<(int, int, int)>)
    ensures
        transition(StateV::Dead, d) == StateV::Dead,
        transition_on_board(StateV::Dead, d, cells) == StateV::Dead,
{
}

/// A transition whose result occupies any cell outside the board
/// collapses to `Dead` under the board-aware rule.
pub proof fn lemma_outside_board_dies(s: StateV, d: HexDirection, cells: Set<(int, int, int)>)
    requires
        match transition(s, d) {
            StateV::Standing(h) => !cells.contains(h),
            StateV::Flat(h, t) => !cells.contains(h) || !cells.contains(t),
            StateV::Dead => true,
        },
    ensures
        transition_on_board(s, d, cells) == StateV::Dead,
{
}

/// Stretching from a standing state yields a flat state whose head and
/// tail are adjacent and face the input direction; contracting it
/// forward or backward returns to a standing state, never an invalid
/// flat one.
pub proof fn lemma_stretch_then_contract(h: (int, int, int), d: HexDirection)
    ensures
        ({
            let f = transition(StateV::Standing(h), d);
            &&& f matches StateV::Flat(head, tail) && dir_between(tail, head) == Some(d)
            &&& state_flat_adjacent(f)
            &&& transition(f, d) == StateV::Standing(cube_add(h, cube_scale(delta(d), 3)))
            &&& transition(f, opposite_dir(d)) == StateV::Standing(h)
        }),
{
    lemma_dir_between_neighbor(cube_add(h, delta(d)), d);
}

/// Equal models come from equal states: the model keeps every
/// distinction, so the transition functions are deterministic over the
/// executable states as well.
pub proof fn lemma_state_view_injective(a: PlayerState, b: PlayerState)
    requires
        a@ == b@,
    ensures
        a == b,
{
}

} // verus!
