use halmak::config::Config;
use halmak::generation::Generation;
use halmak::mutator::Mutator;

fn setup() -> (Config, Mutator) {
    (Config::defaults(), Mutator::new("".to_string()))
}

#[test]
fn test_gen_zero() {
    let (config, mutator) = setup();
    let generation = Generation::zero(&config, &mutator).unwrap();

    assert_eq!(generation.number, 1);
    assert_eq!(generation.population.members[0].name(), "QWERTY");
}

#[test]
fn test_next() {
    let (config, mutator) = setup();
    let generation = Generation::zero(&config, &mutator).unwrap();
    let next_generation = generation.next(&config, &mutator);

    assert_eq!(next_generation.number, 2);
    assert_ne!(
        next_generation.population.members[1].template,
        generation.population.members[1].template
    );
}

#[test]
fn test_successor() {
    let (config, mutator) = setup();
    let generation = Generation::zero(&config, &mutator).unwrap();
    let succ1 = generation.successor();
    let succ2 = generation.successor();

    assert_eq!(succ1, succ2);
}

#[test]
fn generation_test_best() {
    let (config, mutator) = setup();
    let generation = Generation::zero(&config, &mutator).unwrap();
    let best1 = generation.best();
    let best2 = generation.best();

    assert_eq!(best1, best2);
}

#[test]
fn test_summary_for() {
    let (config, mutator) = setup();
    let generation = Generation::zero(&config, &mutator).unwrap();
    let layout1 = &generation.population.members[0];
    let layout2 = &generation.population.members[29];

    assert_eq!(generation.summary_for(layout1), generation.summary_for(layout1));
    assert_eq!(generation.summary_for(layout1), generation.summary_for(layout1));
    assert_ne!(generation.summary_for(layout1), generation.summary_for(layout2));
}

#[test]
fn test_outcomes() {
    let (config, mutator) = setup();
    let generation = Generation::zero(&config, &mutator).unwrap();
    let outcome = generation.outcome();
    let _ = outcome;
}

#[test]
fn the_best_member_tops_every_rating() {
    let (config, mutator) = setup();
    let generation = Generation::zero(&config, &mutator).unwrap();
    let best = generation.selection.scores[generation.best_index].performance
        * generation.results[generation.best_index].summary.fitness;
    for (score, rating) in generation.selection.scores.iter().zip(generation.results.iter()) {
        assert!(best >= score.performance * rating.summary.fitness);
    }
}
