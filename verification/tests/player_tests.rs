use hexworm::board::HexMap;
use hexworm::hex::Hex;
use hexworm::hex::HexDirection;
use hexworm::player::PlayerState;

const ALL_DIRS: [HexDirection; 6] = [
    HexDirection::E,
    HexDirection::SE,
    HexDirection::SW,
    HexDirection::W,
    HexDirection::NW,
    HexDirection::NE,
];

fn board_of(cells: Vec<Hex>, start: Hex, goal: Hex) -> HexMap {
    HexMap { cells, start, goal }
}

#[test]
fn standing_stretches_two_ahead() {
    let h = Hex::from_axial(0, 0);
    let next = PlayerState::Standing(h).next_state(HexDirection::E);
    assert_eq!(next, PlayerState::Flat(Hex::from_axial(2, 0), Hex::from_axial(1, 0)));
}

#[test]
fn flat_contracts_forward() {
    let flat = PlayerState::Flat(Hex::from_axial(2, 0), Hex::from_axial(1, 0));
    assert_eq!(flat.next_state(HexDirection::E), PlayerState::Standing(Hex::from_axial(3, 0)));
}

#[test]
fn flat_contracts_backward() {
    let flat = PlayerState::Flat(Hex::from_axial(2, 0), Hex::from_axial(1, 0));
    assert_eq!(flat.next_state(HexDirection::W), PlayerState::Standing(Hex::from_axial(0, 0)));
}

#[test]
fn flat_translates_on_turn() {
    let flat = PlayerState::Flat(Hex::from_axial(2, 0), Hex::from_axial(1, 0));
    assert_eq!(
        flat.next_state(HexDirection::NW),
        PlayerState::Flat(Hex::from_axial(1, 1), Hex::from_axial(0, 1))
    );
}

#[test]
fn stretch_then_contract_returns_standing() {
    for d in ALL_DIRS {
        let h = Hex::from_axial(3, -1);
        let flat = PlayerState::Standing(h).next_state(d);
        match flat {
            PlayerState::Flat(head, tail) => {
                assert_eq!(HexDirection::get_dir_from_to(tail, head), d);
                assert!(matches!(flat.next_state(d), PlayerState::Standing(_)));
                assert_eq!(flat.next_state(d.opposite()), PlayerState::Standing(h));
            }
            _ => panic!("a stretch must yield a flat state"),
        }
    }
}

#[test]
fn transition_is_deterministic() {
    let s = PlayerState::Flat(Hex::from_axial(1, 0), Hex::from_axial(0, 0));
    for d in ALL_DIRS {
        assert_eq!(s.next_state(d), s.next_state(d));
    }
}

#[test]
fn dead_is_absorbing() {
    let map = board_of(
        vec![Hex::from_axial(0, 0)],
        Hex::from_axial(0, 0),
        Hex::from_axial(0, 0),
    );
    for d in ALL_DIRS {
        assert_eq!(PlayerState::Dead.next_state(d), PlayerState::Dead);
        assert_eq!(PlayerState::Dead.next_state_in_map(d, &map), PlayerState::Dead);
    }
}

#[test]
fn off_board_result_collapses_to_dead() {
    let map = board_of(
        vec![Hex::from_axial(0, 0), Hex::from_axial(1, 0)],
        Hex::from_axial(0, 0),
        Hex::from_axial(1, 0),
    );
    let standing = PlayerState::Standing(Hex::from_axial(0, 0));
    for d in ALL_DIRS {
        assert_eq!(standing.next_state_in_map(d, &map), PlayerState::Dead);
    }
}

#[test]
fn on_board_result_survives() {
    let mut cells = vec![Hex::from_axial(0, 0)];
    for n in 0..6 {
        cells.push(Hex::from_axial(0, 0).neighbor_from_index(n));
    }
    cells.push(Hex::from_axial(2, 0));
    let map = board_of(cells, Hex::from_axial(0, 0), Hex::from_axial(2, 0));
    let standing = PlayerState::Standing(Hex::from_axial(0, 0));
    assert_eq!(
        standing.next_state_in_map(HexDirection::E, &map),
        PlayerState::Flat(Hex::from_axial(2, 0), Hex::from_axial(1, 0))
    );
    assert_eq!(standing.next_state_in_map(HexDirection::W, &map), PlayerState::Dead);
}
