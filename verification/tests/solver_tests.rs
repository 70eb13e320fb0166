use hexworm::board::HexMap;
use hexworm::hex::Hex;
use hexworm::player::PlayerState;
use hexworm::rng::WalkRng;

fn axial(q: i32, r: i32) -> Hex {
    Hex::from_axial(q, r)
}

#[test]
fn start_equal_to_goal_gives_single_state_path() {
    let map = HexMap { cells: vec![axial(0, 0)], start: axial(0, 0), goal: axial(0, 0) };
    let path = map.solve_path(axial(0, 0));
    assert_eq!(path, Some(vec![PlayerState::Standing(axial(0, 0))]));
}

#[test]
fn start_outside_board_gives_none() {
    let map = HexMap {
        cells: vec![axial(0, 0), axial(1, 0)],
        start: axial(0, 0),
        goal: axial(1, 0),
    };
    assert_eq!(map.solve_path(axial(5, 5)), None);
}

#[test]
fn origin_with_single_ring_leaves_no_room_to_stretch() {
    let cells = vec![
        axial(0, 0),
        axial(1, 0),
        axial(1, -1),
        axial(0, -1),
        axial(-1, 0),
        axial(-1, 1),
        axial(0, 1),
    ];
    let map = HexMap { cells, start: axial(0, 0), goal: axial(1, 0) };
    // Every stretch from the origin needs a cell two steps away, and
    // the one-ring board has none, so the start state is isolated.
    assert_eq!(map.solve_path(axial(0, 0)), None);
}

#[test]
fn one_stretch_and_contract_east() {
    let cells = vec![axial(0, 0), axial(1, 0), axial(2, 0), axial(3, 0)];
    let map = HexMap { cells, start: axial(0, 0), goal: axial(3, 0) };
    let path = map.solve_path(axial(0, 0)).expect("a path must exist");
    let expected = vec![
        PlayerState::Standing(axial(3, 0)),
        PlayerState::Flat(axial(2, 0), axial(1, 0)),
        PlayerState::Standing(axial(0, 0)),
    ];
    assert_eq!(path, expected);
}

#[test]
fn disconnected_clusters_give_none() {
    let cells = vec![
        axial(0, 0),
        axial(1, 0),
        axial(0, 1),
        axial(10, 0),
        axial(11, 0),
        axial(10, 1),
    ];
    let map = HexMap { cells, start: axial(0, 0), goal: axial(10, 0) };
    assert_eq!(map.solve_path(axial(0, 0)), None);
}

#[test]
fn solver_path_runs_from_goal_back_to_start() {
    let mut cells = Vec::new();
    for q in -1..5 {
        for r in -1..2 {
            cells.push(axial(q, r));
        }
    }
    let map = HexMap { cells, start: axial(0, 0), goal: axial(3, 0) };
    let path = map.solve_path(axial(0, 0)).expect("a path must exist");
    assert_eq!(*path.first().unwrap(), PlayerState::Standing(axial(3, 0)));
    assert_eq!(*path.last().unwrap(), PlayerState::Standing(axial(0, 0)));
}

#[test]
fn generated_board_is_reproducible_under_a_seed() {
    let mut rng1 = WalkRng::new(42);
    let mut rng2 = WalkRng::new(42);
    let a = HexMap::gen(&mut rng1);
    let b = HexMap::gen(&mut rng2);
    assert_eq!(a.cells, b.cells);
    assert_eq!(a.start, b.start);
    assert_eq!(a.goal, b.goal);
}

#[test]
fn generated_board_has_start_goal_and_halos() {
    let mut rng = WalkRng::new(7);
    let map = HexMap::gen(&mut rng);
    assert_eq!(map.start, axial(0, 0));
    assert!(map.is_in_map(map.start));
    assert!(map.is_in_map(map.goal));
    for n in 0..6 {
        assert!(map.is_in_map(map.start.neighbor_from_index(n)));
        assert!(map.is_in_map(map.goal.neighbor_from_index(n)));
    }
    for i in 0..map.cells.len() {
        for j in 0..i {
            assert_ne!(map.cells[i], map.cells[j]);
        }
    }
}

#[test]
fn generated_board_is_solvable_from_start() {
    // The halo around start and goal gives the creature room to
    // stretch at both ends; the walked band connects them.
    let mut rng = WalkRng::new(3);
    let map = HexMap::gen(&mut rng);
    let path = map.solve_path(map.start);
    if let Some(states) = path {
        assert_eq!(*states.first().unwrap(), PlayerState::Standing(map.goal));
        assert_eq!(*states.last().unwrap(), PlayerState::Standing(map.start));
    }
}

#[test]
fn generated_board_is_connected() {
    // Every cell of a generated board is reachable from the start by
    // unit steps staying inside the board.
    let mut rng = WalkRng::new(99);
    let map = HexMap::gen(&mut rng);
    let mut reached = vec![map.start];
    let mut frontier = vec![map.start];
    while let Some(cur) = frontier.pop() {
        for n in 0..6 {
            let nb = cur.neighbor_from_index(n);
            if map.is_in_map(nb) && !reached.contains(&nb) {
                reached.push(nb);
                frontier.push(nb);
            }
        }
    }
    for c in &map.cells {
        assert!(reached.contains(c));
    }
}

#[test]
fn generated_board_size_is_bounded() {
    for seed in [0, 1, 2, 77, 123456] {
        let mut rng = WalkRng::new(seed);
        let map = HexMap::gen(&mut rng);
        assert!(7 <= map.cells.len() && map.cells.len() <= 94);
    }
}

#[test]
fn random_source_stays_below_bound() {
    let mut rng = WalkRng::new(123456789);
    for _ in 0..1000 {
        let v = rng.next_below(6);
        assert!(v < 6);
    }
}
