use halmak::geometry::{Geometry, Hand, Finger};
use halmak::keyboard::{Keyboard, Key};
use halmak::layouts::qwerty;

#[test]
fn gets_the_right_name() {
    let keyboard = Keyboard::qwerty();

    assert_eq!(keyboard.name, "QWERTY".to_string());
}

#[test]
fn has_correct_keys_layout() {
    let keyboard = Keyboard::qwerty();

    let entries = keyboard.layout.entries();
    let first_row = &entries[13..23];
    let letters = first_row.iter().fold(String::new(), |name, key| format!("{}{}", name, key.normal));

    assert_eq!(letters, "qwertyuiop");
}

#[test]
fn builds_correct_key_mapping() {
    let keyboard = Keyboard::qwerty();

    assert_eq!(
        keyboard.key_for(&'q'),
        Some(Key { hand: Hand::Left, finger: Finger::Pinky, shifted: false, effort: 6, position: (1, 1) })
    );
    assert_eq!(
        keyboard.key_for(&'S'),
        Some(Key { hand: Hand::Left, finger: Finger::Ring, shifted: true, effort: 12, position: (2, 1) })
    );
    assert_eq!(
        keyboard.key_for(&'c'),
        Some(Key { hand: Hand::Left, finger: Finger::Middle, shifted: false, effort: 10, position: (3, 3) })
    );
    assert_eq!(
        keyboard.key_for(&'F'),
        Some(Key { hand: Hand::Left, finger: Finger::Pointy, shifted: true, effort: 12, position: (2, 3) })
    );
    assert_eq!(
        keyboard.key_for(&'t'),
        Some(Key { hand: Hand::Left, finger: Finger::Pointy, shifted: false, effort: 11, position: (1, 5) })
    );
    assert_eq!(
        keyboard.key_for(&'^'),
        Some(Key { hand: Hand::Right, finger: Finger::Pointy, shifted: true, effort: 28, position: (0, 6) })
    );
    assert_eq!(
        keyboard.key_for(&'y'),
        Some(Key { hand: Hand::Right, finger: Finger::Pointy, shifted: false, effort: 14, position: (1, 6) })
    );
    assert_eq!(
        keyboard.key_for(&'J'),
        Some(Key { hand: Hand::Right, finger: Finger::Pointy, shifted: true, effort: 5, position: (2, 6) })
    );
    assert_eq!(
        keyboard.key_for(&'M'),
        Some(Key { hand: Hand::Right, finger: Finger::Pointy, shifted: true, effort: 7, position: (3, 7) })
    );
    assert_eq!(
        keyboard.key_for(&' '),
        Some(Key { hand: Hand::Right, finger: Finger::Thumb, shifted: false, effort: 0, position: (4, 0) })
    );
    assert_eq!(
        keyboard.key_for(&'\n'),
        Some(Key { hand: Hand::Right, finger: Finger::Pinky, shifted: false, effort: 11, position: (2, 11) })
    );
    assert_eq!(
        keyboard.key_for(&'\t'),
        Some(Key { hand: Hand::Left, finger: Finger::Pinky, shifted: false, effort: 15, position: (1, 0) })
    );
}

#[test]
fn gives_access_to_keys() {
    let keyboard = Keyboard::qwerty();

    assert_eq!(
        keyboard.key_for(&'q'),
        Some(Key { hand: Hand::Left, finger: Finger::Pinky, shifted: false, effort: 6, position: (1, 1) })
    );
    assert_eq!(
        keyboard.key_for(&'S'),
        Some(Key { hand: Hand::Left, finger: Finger::Ring, shifted: true, effort: 12, position: (2, 1) })
    );
    assert_eq!(keyboard.key_for(&'€'), None);
}

#[test]
fn unknown_geometries_build_empty_tables() {
    let geometry = Geometry {
        template: String::new(),
        fingers: String::new(),
        hands: String::new(),
        efforts: String::new(),
        rolling_pairs: String::new(),
        bad_starters: String::new(),
    };
    let keyboard = Keyboard::from(qwerty(), geometry);
    assert_eq!(keyboard.key_for(&'a'), None);
}
