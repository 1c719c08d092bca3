use halmak::dna::{DNA, Sequence};
use halmak::layouts::{qwerty, dvorak, colemak, workman, the_1, halmak_21};

fn qwerty_sequence() -> Sequence {
    vec![
        ("~".to_string(), "`".to_string()),
        ("!".to_string(), "1".to_string()),
        ("@".to_string(), "2".to_string()),
        ("#".to_string(), "3".to_string()),
        ("$".to_string(), "4".to_string()),
        ("%".to_string(), "5".to_string()),
        ("^".to_string(), "6".to_string()),
        ("&".to_string(), "7".to_string()),
        ("*".to_string(), "8".to_string()),
        ("(".to_string(), "9".to_string()),
        (")".to_string(), "0".to_string()),
        ("_".to_string(), "-".to_string()),
        ("+".to_string(), "=".to_string()),
        ("Q".to_string(), "q".to_string()),
        ("W".to_string(), "w".to_string()),
        ("E".to_string(), "e".to_string()),
        ("R".to_string(), "r".to_string()),
        ("T".to_string(), "t".to_string()),
        ("Y".to_string(), "y".to_string()),
        ("U".to_string(), "u".to_string()),
        ("I".to_string(), "i".to_string()),
        ("O".to_string(), "o".to_string()),
        ("P".to_string(), "p".to_string()),
        ("{".to_string(), "[".to_string()),
        ("}".to_string(), "]".to_string()),
        ("|".to_string(), "\\".to_string()),
        ("A".to_string(), "a".to_string()),
        ("S".to_string(), "s".to_string()),
        ("D".to_string(), "d".to_string()),
        ("F".to_string(), "f".to_string()),
        ("G".to_string(), "g".to_string()),
        ("H".to_string(), "h".to_string()),
        ("J".to_string(), "j".to_string()),
        ("K".to_string(), "k".to_string()),
        ("L".to_string(), "l".to_string()),
        (":".to_string(), ";".to_string()),
        ("\"".to_string(), "\'".to_string()),
        ("Z".to_string(), "z".to_string()),
        ("X".to_string(), "x".to_string()),
        ("C".to_string(), "c".to_string()),
        ("V".to_string(), "v".to_string()),
        ("B".to_string(), "b".to_string()),
        ("N".to_string(), "n".to_string()),
        ("M".to_string(), "m".to_string()),
        ("<".to_string(), ",".to_string()),
        (">".to_string(), ".".to_string()),
        ("?".to_string(), "/".to_string()),
    ]
}

#[test]
fn test_from_layout() {
    let dna = DNA::from(&qwerty());

    assert_eq!(dna.sequence, qwerty_sequence());
}

#[test]
fn test_to_layout() {
    let dna = DNA { sequence: qwerty_sequence() };

    assert_eq!(dna.to_layout(), qwerty());
}

#[test]
fn test_swapping_keys() {
    let original = DNA { sequence: qwerty_sequence() };
    let new_dna = original.swap_keys(2, 5);

    assert_eq!(original.sequence, qwerty_sequence()); // should not change
    assert_eq!(
        new_dna.sequence,
        [
            &original.sequence[0..2],
            &[
                ("%".to_string(), "5".to_string()),
                ("#".to_string(), "3".to_string()),
                ("$".to_string(), "4".to_string()),
                ("@".to_string(), "2".to_string()),
            ],
            &original.sequence[6..]
        ]
        .concat()
        .to_vec()
    )
}

#[test]
fn test_swapping_symbols() {
    let original = DNA { sequence: qwerty_sequence() };
    let new_dna1 = original.swap_symbols((2, 0), (3, 0));
    let new_dna2 = original.swap_symbols((2, 0), (3, 1));
    let new_dna3 = original.swap_symbols((2, 1), (3, 0));
    let new_dna4 = original.swap_symbols((2, 1), (3, 1));

    assert_eq!(original.sequence, qwerty_sequence()); // should not change

    assert_eq!(
        new_dna1.sequence,
        [
            &original.sequence[0..2],
            &[
                ("#".to_string(), "2".to_string()),
                ("@".to_string(), "3".to_string()),
            ],
            &original.sequence[4..]
        ]
        .concat()
        .to_vec()
    );

    assert_eq!(
        new_dna2.sequence,
        [
            &original.sequence[0..2],
            &[
                ("3".to_string(), "2".to_string()),
                ("#".to_string(), "@".to_string()),
            ],
            &original.sequence[4..]
        ]
        .concat()
        .to_vec()
    );

    assert_eq!(
        new_dna3.sequence,
        [
            &original.sequence[0..2],
            &[
                ("@".to_string(), "#".to_string()),
                ("2".to_string(), "3".to_string()),
            ],
            &original.sequence[4..]
        ]
        .concat()
        .to_vec()
    );

    assert_eq!(
        new_dna4.sequence,
        [
            &original.sequence[0..2],
            &[
                ("@".to_string(), "3".to_string()),
                ("#".to_string(), "2".to_string()),
            ],
            &original.sequence[4..]
        ]
        .concat()
        .to_vec()
    );
}

#[test]
fn round_trips_every_built_in_layout() {
    for layout in [qwerty(), dvorak(), colemak(), workman(), the_1(), halmak_21()] {
        let rebuilt = DNA::from(&layout).to_layout();
        assert_eq!(rebuilt.template, layout.template);
        assert_eq!(DNA::from(&layout).len(), 47);
    }
}

#[test]
fn pair_at_reads_the_sequence() {
    let dna = DNA { sequence: qwerty_sequence() };
    assert_eq!(dna.pair_at(13), ("Q".to_string(), "q".to_string()));
    assert_eq!(dna.iter().len(), 47);
}
