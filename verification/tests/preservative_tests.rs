use halmak::preservative::Preservative;

#[test]
fn parsing_preserved_positions() {
    let presie = Preservative::from(
        "
      ∙ ! ∙ * ∙ ∙ ∙ ∙ ∙ ∙ ∙ ∙ ∙
      ∙ 1 ∙ ∙ ∙ ∙ ∙ ∙ ∙ ∙ ∙ ∙ ∙
        Q ∙ ∙ ∙ ∙ ∙ ∙ ∙ ∙ ∙ ∙ ∙ ∙
        q ∙ r ∙ ∙ ∙ ∙ ∙ ∙ ∙ ∙ ∙ ∙
        ∙ ∙ ∙ ∙ ∙ ∙ ∙ ∙ ∙ ∙ ∙
        ∙ ∙ ∙ ∙ ∙ ∙ ∙ ∙ ∙ ∙ ∙
          ∙ ∙ ∙ ∙ ∙ ∙ ∙ ∙ ∙ ∙
          ∙ ∙ ∙ ∙ ∙ ∙ ∙ , . ∙
    "
        .to_string(),
    );
    let mut positions: Vec<(usize, usize)> =
        presie.restriced_positions.iter().map(|(p, _)| *p).collect();
    let mut expected =
        vec![(1, 0), (1, 1), (3, 0), (13, 0), (13, 1), (15, 1), (44, 1), (45, 1)];
    positions.sort();
    expected.sort();
    assert_eq!(positions, expected);
}

#[test]
fn is_safe_position_mirrors_the_set() {
    let presie = Preservative::from(
        "A ∙\na ∙\n∙ B\n∙ b".to_string(),
    );
    assert!(!presie.is_safe_position((0, 0)));
    assert!(!presie.is_safe_position((0, 1)));
    assert!(presie.is_safe_position((1, 0)));
    assert!(presie.is_safe_position((2, 1)));
    assert!(!presie.is_safe_position((3, 0)));
    assert!(!presie.is_safe_position((3, 1)));
    assert!(presie.is_safe_position((5, 0)));
}

#[test]
fn symbol_at_returns_the_locking_glyph() {
    let presie = Preservative::from("A ∙\na ∙".to_string());
    assert_eq!(presie.symbol_at((0, 0)), Some("A".to_string()));
    assert_eq!(presie.symbol_at((0, 1)), Some("a".to_string()));
    assert_eq!(presie.symbol_at((1, 0)), None);
}
