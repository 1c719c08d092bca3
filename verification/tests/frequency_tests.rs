use halmak::frequency::calculate_frequencies;

fn count_of(usage: &Vec<(char, usize)>, symbol: char) -> Option<usize> {
    usage.iter().find(|(c, _)| *c == symbol).map(|(_, n)| *n)
}

#[test]
fn calculates_usage_frequencies() {
    let text = "Hello World!\nBlargh!";
    let usage = calculate_frequencies(&text.to_string());

    let expected = vec![
        ('H', 1),
        ('d', 1),
        ('e', 1),
        ('o', 2),
        ('r', 2),
        ('\n', 1),
        ('a', 1),
        ('!', 2),
        ('g', 1),
        ('l', 4),
        (' ', 1),
        ('B', 1),
        ('h', 1),
        ('W', 1),
    ];
    assert_eq!(usage.len(), expected.len());
    for (symbol, count) in expected {
        assert_eq!(count_of(&usage, symbol), Some(count), "{:?}", symbol);
    }
}

#[test]
fn counts_nothing_in_an_empty_text() {
    assert_eq!(calculate_frequencies(&String::new()).len(), 0);
}
