use hexworm::hex::Hex;
use hexworm::hex::HexDirection;

const ALL_DIRS: [HexDirection; 6] = [
    HexDirection::E,
    HexDirection::SE,
    HexDirection::SW,
    HexDirection::W,
    HexDirection::NW,
    HexDirection::NE,
];

#[test]
fn from_axial_satisfies_cube_invariant() {
    let samples = [(0, 0), (1, 0), (-3, 7), (250, -99), (-1000, -1000), (4, -4)];
    for (q, r) in samples {
        let h = Hex::from_axial(q, r);
        assert_eq!(h.q + h.r + h.s, 0);
    }
}

#[test]
fn from_cube_keeps_components() {
    let h = Hex::from_cube(2, -5, 3);
    assert_eq!((h.q, h.r, h.s), (2, -5, 3));
}

#[test]
fn offset_round_trip() {
    for col in -9..10 {
        for row in -9..10 {
            let h = Hex::from_offset((col, row));
            assert_eq!(h.q + h.r + h.s, 0);
            assert_eq!(h.to_offset(), (col, row));
        }
    }
}

#[test]
fn offset_exact_values() {
    let h = Hex::from_offset((3, 5));
    assert_eq!((h.q, h.r, h.s), (0, 5, -5));
    let h2 = Hex::from_offset((0, -3));
    assert_eq!((h2.q, h2.r, h2.s), (1, -3, 2));
    assert_eq!(h2.to_offset(), (0, -3));
}

#[test]
fn direction_deltas() {
    assert_eq!(HexDirection::E.to_hex(), Hex::from_axial(1, 0));
    assert_eq!(HexDirection::SE.to_hex(), Hex::from_axial(1, -1));
    assert_eq!(HexDirection::SW.to_hex(), Hex::from_axial(0, -1));
    assert_eq!(HexDirection::W.to_hex(), Hex::from_axial(-1, 0));
    assert_eq!(HexDirection::NW.to_hex(), Hex::from_axial(-1, 1));
    assert_eq!(HexDirection::NE.to_hex(), Hex::from_axial(0, 1));
}

#[test]
fn opposite_is_involutive() {
    for d in ALL_DIRS {
        assert_eq!(d.opposite().opposite(), d);
        assert_ne!(d.opposite(), d);
    }
}

#[test]
fn index_round_trip() {
    for n in 0..6 {
        assert_eq!(HexDirection::from_usize(n).to_usize(), n);
    }
    for d in ALL_DIRS {
        assert_eq!(HexDirection::from_usize(d.to_usize()), d);
    }
}

#[test]
fn direction_between_neighbors() {
    let anchors = [Hex::from_axial(0, 0), Hex::from_axial(7, -3), Hex::from_axial(-40, 11)];
    for a in anchors {
        for d in ALL_DIRS {
            let b = a.neighbor(d);
            assert_eq!(HexDirection::get_dir_from_to(a, b), d);
        }
    }
}

#[test]
fn arithmetic_methods() {
    let a = Hex::from_axial(2, -1);
    let b = Hex::from_axial(-5, 4);
    assert_eq!(a.add(b), Hex::from_axial(-3, 3));
    assert_eq!(a.sub(b), Hex::from_axial(7, -5));
    assert_eq!(a.scale(3), Hex::from_axial(6, -3));
}

#[test]
fn neighbor_from_index_matches_order() {
    let a = Hex::from_axial(1, 1);
    for n in 0..6 {
        assert_eq!(a.neighbor_from_index(n), a.neighbor(HexDirection::from_usize(n)));
    }
}

#[test]
fn length_and_distance() {
    assert_eq!(Hex::from_cube(3, -2, -1).length(), 3);
    assert_eq!(Hex::from_axial(0, 0).length(), 0);
    let a = Hex::from_axial(0, 0);
    let b = Hex::from_axial(2, -1);
    assert_eq!(a.distance(b), 2);
    assert_eq!(b.distance(a), 2);
}

#[test]
fn ring_zero_is_center() {
    let c = Hex::from_axial(4, -2);
    assert_eq!(c.ring(0), vec![c]);
}

#[test]
fn ring_one_exact() {
    let c = Hex::from_axial(0, 0);
    let expected = vec![
        Hex::from_axial(-1, 1),
        Hex::from_axial(0, 1),
        Hex::from_axial(1, 0),
        Hex::from_axial(1, -1),
        Hex::from_axial(0, -1),
        Hex::from_axial(-1, 0),
    ];
    assert_eq!(c.ring(1), expected);
}

#[test]
fn spiral_counts_and_uniqueness() {
    let c = Hex::from_axial(-1, 2);
    let s1 = c.spiral(1);
    assert_eq!(s1.len(), 7);
    assert_eq!(s1[0], c);
    let s3 = c.spiral(3);
    assert_eq!(s3.len(), 1 + 6 + 12 + 18);
    for i in 0..s3.len() {
        for j in 0..i {
            assert_ne!(s3[i], s3[j]);
        }
    }
}
