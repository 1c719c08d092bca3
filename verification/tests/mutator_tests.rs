use halmak::dna::DNA;
use halmak::layouts::qwerty;
use halmak::mutator::Mutator;

fn qwerty_dna() -> DNA {
    DNA::from(&qwerty())
}

#[test]
fn it_mutates_keys() {
    let layout = qwerty();
    let mutator = Mutator::new("".to_string());
    let new_layout = mutator.mutate_keys(&layout).unwrap();

    assert_ne!(new_layout.template, layout.template);
}

#[test]
fn it_mutates_symbols() {
    let layout = qwerty();
    let mutator = Mutator::new("".to_string());
    let new_layout = mutator.mutate_symbols(&layout).unwrap();

    assert_ne!(new_layout.template, layout.template);
}

#[test]
fn it_never_mutates_preserved_positions() {
    let mutator = Mutator::new(
        "
      ∙ ! ∙ # ∙ ∙ ∙ ∙ ∙ ∙ ∙ ∙ ∙
      ∙ 1 ∙ ∙ ∙ ∙ ∙ ∙ ∙ ∙ ∙ ∙ ∙
        Q ∙ ∙ ∙ ∙ ∙ ∙ ∙ ∙ ∙ ∙ ∙ ∙
        q ∙ ∙ ∙ ∙ ∙ ∙ ∙ ∙ ∙ ∙ ∙ ∙
        ∙ ∙ ∙ ∙ ∙ ∙ ∙ ∙ ∙ ∙ ∙
        ∙ ∙ ∙ ∙ ∙ ∙ ∙ ∙ ∙ ∙ ∙
          ∙ ∙ ∙ ∙ ∙ ∙ ∙ ∙ ∙ ∙
          ∙ ∙ ∙ ∙ ∙ ∙ ∙ , ∙ ∙
    "
        .to_string(),
    );
    let mut dna = qwerty_dna();

    for _ in 0..2000 {
        dna = mutator.swap_random_keys(&dna).unwrap();
        dna = mutator.swap_random_symbols(&dna).unwrap();
    }

    assert_eq!(("!".to_string(), "1".to_string()), dna.pair_at(1));
    assert_eq!(("Q".to_string(), "q".to_string()), dna.pair_at(13));
    assert_eq!("#".to_string(), dna.pair_at(3).0);
    assert_eq!(",".to_string(), dna.pair_at(44).1);

    assert_ne!("W".to_string(), dna.pair_at(14).0);
    assert_ne!("w".to_string(), dna.pair_at(14).1);
    assert_ne!("3".to_string(), dna.pair_at(3).1);
    assert_ne!("<".to_string(), dna.pair_at(44).0);
}

#[test]
fn test_random_keys_swap() {
    let mutator = Mutator::new("".to_string());
    let original = qwerty_dna();

    let new_dna1 = mutator.swap_random_keys(&original).unwrap();
    let new_dna2 = mutator.swap_random_keys(&original).unwrap();
    let new_dna3 = mutator.swap_random_keys(&original).unwrap();
    let new_dna4 = mutator.swap_random_keys(&original).unwrap();

    assert_eq!(original, qwerty_dna());
    assert_ne!(new_dna1, original);
    assert_ne!(new_dna2, original);
    assert_ne!(new_dna3, original);
    assert_ne!(new_dna4, original);
}

#[test]
fn swapping_random_symbols() {
    let mutator = Mutator::new("".to_string());
    let original = qwerty_dna();
    let new_dna1 = mutator.swap_random_symbols(&original).unwrap();
    let new_dna2 = mutator.swap_random_symbols(&original).unwrap();
    let new_dna3 = mutator.swap_random_symbols(&original).unwrap();
    let new_dna4 = mutator.swap_random_symbols(&original).unwrap();

    assert_eq!(original, qwerty_dna());
    assert_ne!(new_dna1, original);
    assert_ne!(new_dna2, original);
    assert_ne!(new_dna3, original);
    assert_ne!(new_dna4, original);
}

#[test]
fn getting_two_random_symbol_positions() {
    let mutator = Mutator::new("".to_string());
    let sequence = qwerty_dna();

    for _ in 0..10 {
        let (pos1, pos2) = mutator.two_random_symbol_positions(&sequence).unwrap();
        let entry1 = sequence.pair_at(pos1.0);
        let entry2 = sequence.pair_at(pos2.0);

        assert_ne!(pos1, pos2);

        assert!(entry1.0.chars().all(|c| !c.is_ascii_alphabetic()), "{:?}", entry1.0);
        assert!(entry1.1.chars().all(|c| !c.is_ascii_alphabetic()), "{:?}", entry1.1);
        assert!(entry2.0.chars().all(|c| !c.is_ascii_alphabetic()), "{:?}", entry2.0);
        assert!(entry2.1.chars().all(|c| !c.is_ascii_alphabetic()), "{:?}", entry2.1);
    }
}

#[test]
fn mutation_keeps_every_pair_and_the_length() {
    let mutator = Mutator::new("".to_string());
    let mut dna = qwerty_dna();
    for _ in 0..100 {
        dna = mutator.swap_random_keys(&dna).unwrap();
        dna = mutator.swap_random_symbols(&dna).unwrap();
        assert_eq!(dna.len(), 47);
        for i in 0..47 {
            let pair = dna.pair_at(i);
            assert!(!pair.0.is_empty() && !pair.1.is_empty());
        }
    }
}

#[test]
fn mutation_reports_failure_when_everything_is_locked() {
    // Every slot of the template below holds a plain glyph, so every
    // position is locked and no swap is legal.
    let mutator = Mutator::new(qwerty().template);
    let dna = qwerty_dna();
    assert!(mutator.swap_random_keys(&dna).is_none());
    assert!(mutator.swap_random_symbols(&dna).is_none());
}
