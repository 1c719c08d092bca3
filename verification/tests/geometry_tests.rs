use halmak::geometry::{Geometry, Key, Hand, Finger, SpecialSymbol};

#[test]
fn finds_entries_correctly() {
    let us_pc = Geometry::us_pc();
    assert_eq!(
        us_pc.key_for_layout((0, 1)),
        Some(Key { position: (0, 1), hand: Hand::Left, finger: Finger::Pinky, effort: 14 })
    );
    assert_eq!(
        us_pc.key_for_layout((1, 2)),
        Some(Key { position: (1, 3), hand: Hand::Left, finger: Finger::Middle, effort: 1 })
    );
    assert_eq!(
        us_pc.key_for_layout((2, 5)),
        Some(Key { position: (2, 5), hand: Hand::Right, finger: Finger::Pointy, effort: 7 })
    );
    assert_eq!(
        us_pc.key_for_layout((3, 7)),
        Some(Key { position: (3, 8), hand: Hand::Right, finger: Finger::Middle, effort: 5 })
    );
}

#[test]
fn returns_none_if_not_found() {
    assert_eq!(Geometry::us_pc().key_for_layout((9, 9)), None);
}

#[test]
fn special_keys_check() {
    let specials = Geometry::us_pc().special_keys();
    let expected = vec![
        (
            SpecialSymbol::Tab,
            Key { position: (1, 0), hand: Hand::Left, finger: Finger::Pinky, effort: 15 },
        ),
        (
            SpecialSymbol::Space,
            Key { position: (4, 0), hand: Hand::Right, finger: Finger::Thumb, effort: 0 },
        ),
        (
            SpecialSymbol::Return,
            Key { position: (2, 11), hand: Hand::Right, finger: Finger::Pinky, effort: 11 },
        ),
        (
            SpecialSymbol::LeftShift,
            Key { position: (3, 0), hand: Hand::Left, finger: Finger::Pinky, effort: 5 },
        ),
        (
            SpecialSymbol::RightShift,
            Key { position: (3, 11), hand: Hand::Right, finger: Finger::Pinky, effort: 12 },
        ),
    ];
    assert_eq!(specials, expected);
}

#[test]
fn special_keys_on_full_ortho() {
    let specials = Geometry::full_ortho().special_keys();
    let expected = vec![
        (
            SpecialSymbol::Tab,
            Key { position: (4, 5), hand: Hand::Right, finger: Finger::Thumb, effort: 0 },
        ),
        (
            SpecialSymbol::Space,
            Key { position: (4, 2), hand: Hand::Left, finger: Finger::Thumb, effort: 0 },
        ),
        (
            SpecialSymbol::Return,
            Key { position: (4, 3), hand: Hand::Right, finger: Finger::Thumb, effort: 0 },
        ),
        (
            SpecialSymbol::LeftShift,
            Key { position: (4, 1), hand: Hand::Left, finger: Finger::Thumb, effort: 0 },
        ),
        (
            SpecialSymbol::RightShift,
            Key { position: (4, 4), hand: Hand::Right, finger: Finger::Thumb, effort: 0 },
        ),
    ];
    assert_eq!(specials, expected);
}

#[test]
fn calculate_bad_startes() {
    let mut positions = Geometry::us_pc().bad_starting_positions();
    let mut expected = vec![
        (1, 1),
        (1, 4),
        (1, 5),
        (1, 6),
        (1, 7),
        (1, 10),
        (1, 11),
        (1, 12),
        (1, 13),
        (2, 2),
        (2, 4),
        (2, 5),
        (2, 7),
        (2, 10),
        (3, 1),
        (3, 2),
        (3, 3),
        (3, 5),
        (3, 6),
        (3, 8),
        (3, 9),
        (3, 10),
    ];
    positions.sort();
    expected.sort();
    assert_eq!(positions, expected);
}

#[test]
fn calculate_rolling_pairs() {
    let mut pairs = Geometry::us_pc().rolling_position_pairs();
    let mut expected = vec![
        ((2, 6), (2, 9)),
        ((2, 0), (2, 3)),
        ((2, 3), (1, 2)),
        ((2, 0), (2, 1)),
        ((3, 10), (3, 10)),
        ((2, 1), (2, 2)),
        ((2, 2), (2, 3)),
        ((2, 9), (2, 8)),
        ((2, 6), (1, 9)),
        ((1, 2), (1, 3)),
        ((2, 8), (3, 7)),
        ((3, 7), (1, 8)),
        ((1, 8), (1, 9)),
        ((3, 7), (2, 8)),
        ((3, 4), (2, 0)),
        ((2, 8), (2, 6)),
        ((2, 8), (2, 7)),
        ((3, 7), (1, 9)),
        ((1, 9), (1, 8)),
        ((2, 3), (1, 3)),
        ((2, 1), (2, 3)),
        ((1, 2), (2, 3)),
        ((1, 9), (2, 6)),
        ((3, 7), (2, 9)),
        ((3, 4), (2, 1)),
        ((2, 9), (2, 6)),
        ((1, 3), (1, 2)),
        ((3, 4), (2, 2)),
        ((2, 7), (2, 6)),
        ((3, 4), (1, 2)),
        ((2, 8), (1, 8)),
        ((2, 1), (1, 3)),
        ((2, 6), (2, 8)),
        ((2, 3), (2, 1)),
        ((1, 3), (1, 4)),
        ((2, 3), (2, 0)),
        ((2, 6), (1, 8)),
        ((3, 7), (2, 7)),
        ((1, 4), (1, 3)),
    ];
    pairs.sort();
    expected.sort();
    assert_eq!(pairs, expected);
}
