use halmak::config::default_weights;
use halmak::generation::Outcome;
use halmak::layouts::{colemak, workman};
use halmak::model::{ViewModel, to_score};
use halmak::summary::Summary;

fn summary(effort: u64, fitness: u64) -> Summary {
    Summary { effort, overheads: effort, awkwardness: effort, rollingness: 1234, fitness }
}

fn outcome(effort: u64, fitness: u64) -> Outcome {
    Outcome {
        best: colemak(),
        best_summary: summary(effort, fitness),
        winner: workman(),
        winner_summary: summary(effort + 1000, fitness),
    }
}

#[test]
fn test_instance() {
    let model = ViewModel::new(200);
    assert_eq!(model.outcomes.len(), 0);
}

#[test]
fn test_push() {
    let mut model = ViewModel::new(200);
    model.record(outcome(1234, 1234));

    assert_eq!(model.outcomes.len(), 1);
}

#[test]
fn top_list() {
    let weights = default_weights();
    let mut model = ViewModel::new(200);

    assert_eq!(model.top_list(&weights).len(), 0);

    model.record(outcome(2000, 2000));
    model.record(outcome(1000, 4000));

    let rows = model.top_list(&weights);
    assert_eq!(rows.len(), 2);
    // The second outcome scores higher (cheaper effort, higher
    // fitness), so it leads the table.
    assert_eq!(rows[0][0], "1".to_string());
    assert_eq!(rows[0][1], "QWFPGJLUY;".to_string());
    let top = to_score(&summary(1000, 4000), &weights);
    assert_eq!(rows[0][2], format!("{}", top));
    assert_eq!(rows[1][0], "2".to_string());
}

#[test]
fn best_outcome() {
    let weights = default_weights();
    let mut model = ViewModel::new(200);

    assert!(model.best_outcome(&weights).is_none());

    model.record(outcome(2000, 2000));
    model.record(outcome(1000, 4000));

    let best = model.best_outcome(&weights).unwrap();
    assert_eq!(best.best_summary, summary(1000, 4000));
}

#[test]
fn top_scores() {
    let weights = default_weights();
    let mut model = ViewModel::new(200);

    assert_eq!(model.top_scores(&weights).len(), 0);

    model.record(outcome(2000, 2000));
    model.record(outcome(1000, 4000));

    let points = model.top_scores(&weights);
    // Ascending: the weaker score first, the best one last.
    assert_eq!(
        points,
        vec![
            (0, to_score(&summary(2000, 2000), &weights)),
            (1, to_score(&summary(1000, 4000), &weights)),
        ]
    );
}

#[test]
fn best_scores() {
    let weights = default_weights();
    let mut model = ViewModel::new(200);

    assert_eq!(model.best_scores(&weights).len(), 0);

    model.record(outcome(2000, 2000));
    model.record(outcome(1000, 4000));

    let points = model.best_scores(&weights);
    assert_eq!(
        points,
        vec![
            (0, to_score(&summary(2000, 2000), &weights)),
            (1, to_score(&summary(1000, 4000), &weights)),
        ]
    );
}

#[test]
fn winner_scores() {
    let weights = default_weights();
    let mut model = ViewModel::new(200);

    assert_eq!(model.winner_scores(&weights).len(), 0);

    model.record(outcome(2000, 2000));
    model.record(outcome(1000, 4000));

    let points = model.winner_scores(&weights);
    assert_eq!(
        points,
        vec![
            (0, to_score(&summary(3000, 2000), &weights)),
            (1, to_score(&summary(2000, 4000), &weights)),
        ]
    );
}

#[test]
fn the_window_limits_the_series() {
    let weights = default_weights();
    let mut model = ViewModel::new(2);
    model.record(outcome(3000, 1000));
    model.record(outcome(2000, 2000));
    model.record(outcome(1000, 3000));

    let points = model.best_scores(&weights);
    assert_eq!(points.len(), 2);
    assert_eq!(points[0].1, to_score(&summary(2000, 2000), &weights));
    assert_eq!(points[1].1, to_score(&summary(1000, 3000), &weights));
}
