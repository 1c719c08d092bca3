use halmak::config::default_population;
use halmak::layouts::qwerty;
use halmak::mutator::Mutator;
use halmak::population::{Population, deviation_between};

#[test]
fn test_new() {
    let original = qwerty();
    let mutator = Mutator::new("".to_string());
    let config = default_population();
    let population = Population::new(&original, &original, &config, &mutator);

    assert_eq!(population.members.len(), config.size);
    assert_eq!(population.members[0].template, original.template);

    assert_ne!(population.members[0].template, population.members[1].template);
    assert_ne!(population.members[1].template, population.members[2].template);
    assert_ne!(population.members[2].template, population.members[3].template);
}

#[test]
fn test_deviation() {
    let original = qwerty();
    let mutator = Mutator::new("".to_string());
    let config = default_population();
    let population = Population::new(&original, &original, &config, &mutator);
    let len = original.template.chars().count() as u64;

    assert_eq!(population.deviation_for(&population.members[0]), 0);
    // One key swap moves four symbols, one symbol swap moves two.
    assert_eq!(population.deviation_for(&population.members[1]), 4 * 1000 / len);
    assert_eq!(population.deviation_for(&population.members[2]), 2 * 1000 / len);
    for member in population.members.iter().skip(1) {
        let deviation = population.deviation_for(member);
        assert!(deviation > 0);
        assert!(deviation <= 1000);
    }
}

#[test]
fn deviation_counts_differing_characters() {
    let a = halmak::layout::Layout { template: "abcd".to_string() };
    let b = halmak::layout::Layout { template: "abxy".to_string() };
    // Two characters of four differ.
    assert_eq!(deviation_between(&a, &b), 500);
    assert_eq!(deviation_between(&a, &a), 0);
}

#[test]
fn every_member_keeps_the_full_key_count() {
    let original = qwerty();
    let mutator = Mutator::new("".to_string());
    let config = default_population();
    let population = Population::new(&original, &original, &config, &mutator);
    for member in population.members.iter() {
        assert_eq!(member.entries().len(), 47);
    }
}
