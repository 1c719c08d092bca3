use halmak::config::{default_penalties, default_weights, lorem_ipsum};
use halmak::frequency::calculate_frequencies;
use halmak::geometry::Geometry;
use halmak::keyboard::Keyboard;
use halmak::layouts::{qwerty, dvorak};
use halmak::summary::Summary;

fn summarise(layout: halmak::layout::Layout) -> Summary {
    let keyboard = Keyboard::from(layout, Geometry::us_pc());
    let corpus = lorem_ipsum();
    let frequencies = calculate_frequencies(&corpus);
    Summary::calculate(&keyboard, &default_penalties(), &corpus, &frequencies)
}

#[test]
fn test_score() {
    let weights = default_weights();
    // A summary with every rate at one unit and a mid fitness; each
    // term of the score is exact in thousandths.
    let flat = Summary {
        effort: 1000,
        overheads: 1000,
        awkwardness: 1000,
        rollingness: 1000,
        fitness: 10000,
    };
    // rolling: 1000/5; fitness: 10000/10; effort and overheads:
    // 10_000_000/1000 each; awkwardness: 5_000_000/1000.
    assert_eq!(flat.score(&weights), 200 + 1000 + 2 * 10_000 + 5_000);

    let zeros = Summary { effort: 0, overheads: 0, awkwardness: 0, rollingness: 0, fitness: 0 };
    // A zero rate counts as the smallest representable rate.
    assert_eq!(zeros.score(&weights), 2 * 10_000_000 + 5_000_000);
}

#[test]
fn a_tighter_layout_needs_less_effort() {
    let q = summarise(qwerty());
    let d = summarise(dvorak());
    assert!(d.effort < q.effort);
    assert!(d.overheads < q.overheads);
}

#[test]
fn the_score_follows_its_formula() {
    let weights = default_weights();
    let q = summarise(qwerty());
    assert!(q.effort > 0 && q.overheads > 0 && q.awkwardness > 0);
    let expected = q.rollingness / 5 + q.fitness / 10 + 10_000_000 / q.effort
        + 10_000_000 / q.overheads + 5_000_000 / q.awkwardness;
    assert_eq!(q.score(&weights), expected);
}

#[test]
fn summaries_are_pure() {
    assert_eq!(summarise(qwerty()), summarise(qwerty()));
}

#[test]
fn rates_are_per_thousand_characters() {
    // Eight characters at sixty-seven effort: 67000 / 8 thousandths.
    let keyboard = Keyboard::from(qwerty(), Geometry::us_pc());
    let corpus = "QUwiEOrp".to_string();
    let frequencies = calculate_frequencies(&corpus);
    let summary = Summary::calculate(&keyboard, &default_penalties(), &corpus, &frequencies);
    assert_eq!(summary.effort, 67 * 1000 / 8);
    assert_eq!(summary.overheads, 0);
    assert_eq!(summary.awkwardness, 0);
    assert_eq!(summary.rollingness, 0);
}
