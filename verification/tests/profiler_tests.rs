use halmak::config::lorem_ipsum;
use halmak::frequency::calculate_frequencies;
use halmak::geometry::Geometry;
use halmak::keyboard::Keyboard;
use halmak::layouts::qwerty;
use halmak::layouts::{dvorak, colemak, workman, halmak_21};
use halmak::profiler::{score_for, total_possible_score, symbols_by_frequency, symbols_by_effort,
    symbols_in_band, calculate_fitness};

#[test]
fn test_score_for() {
    assert_eq!(score_for(&"a".to_string()), 4);
    assert_eq!(score_for(&"z".to_string()), 4);
    assert_eq!(score_for(&"0".to_string()), 2);
    assert_eq!(score_for(&"9".to_string()), 2);
    assert_eq!(score_for(&"<".to_string()), 1);
    assert_eq!(score_for(&">".to_string()), 1);
}

#[test]
fn test_total_possible_score() {
    let frequencies = calculate_frequencies(&lorem_ipsum());
    let symbols = symbols_by_frequency(&frequencies);

    assert_eq!(total_possible_score(&symbols), 106);
}

#[test]
fn test_symbols_by_frequency() {
    let frequencies = calculate_frequencies(&lorem_ipsum());
    let most_frequent_symbols = symbols_by_frequency(&frequencies);
    let top10 = &most_frequent_symbols[0..10];
    assert_eq!(top10, vec!["e", "a", "o", "i", "s", "n", "t", "r", "l", "p"]);
}

#[test]
fn test_symbols_by_effort() {
    let keyboard = Keyboard::from(qwerty(), Geometry::us_pc());
    let symbols_with_efforts = symbols_by_effort(&keyboard);
    let top10 = &symbols_with_efforts[0..10];

    assert_eq!(
        top10,
        vec![
            ("d".to_string(), 0),
            ("f".to_string(), 0),
            ("j".to_string(), 0),
            ("k".to_string(), 0),
            ("l".to_string(), 0),
            ("s".to_string(), 0),
            (";".to_string(), 1),
            ("a".to_string(), 1),
            ("e".to_string(), 1),
            ("i".to_string(), 1),
        ]
    );
}

#[test]
fn test_symbols_in_band() {
    let keyboard = Keyboard::from(qwerty(), Geometry::us_pc());
    let symbols_with_efforts = symbols_by_effort(&keyboard);

    assert_eq!(
        symbols_in_band(&symbols_with_efforts, 1),
        vec!["d", "f", "j", "k", "l", "s"]
    );
    assert_eq!(
        symbols_in_band(&symbols_with_efforts, 8),
        vec![";", "a", "e", "i", "o"]
    );

    assert_eq!(symbols_in_band(&symbols_with_efforts, 98), Vec::<String>::new());
}

fn get_fitness_for(layout: halmak::layout::Layout) -> u64 {
    let keyboard = Keyboard::from(layout, Geometry::us_pc());
    let frequencies = calculate_frequencies(&lorem_ipsum());

    calculate_fitness(&keyboard, &frequencies)
}

#[test]
fn test_selection() {
    // Thousandths of the zero-to-three fitness scale.
    assert_eq!(get_fitness_for(qwerty()), 3000 * 15 / 106);
    assert_eq!(get_fitness_for(dvorak()), 3000 * 20 / 106);
    assert_eq!(get_fitness_for(colemak()), 3000 * 29 / 106);
    assert_eq!(get_fitness_for(workman()), 3000 * 25 / 106);
    assert_eq!(get_fitness_for(halmak_21()), 3000 * 28 / 106);
}
