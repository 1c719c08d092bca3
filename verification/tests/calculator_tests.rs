use halmak::calculator::{Calculator, Tally};
use halmak::config::default_penalties;
use halmak::geometry::Geometry;
use halmak::keyboard::Keyboard;
use halmak::layouts::qwerty;

fn run_text(text: &'static str) -> Tally {
    let keyboard = Keyboard::from(qwerty(), Geometry::us_pc());
    let calculator = Calculator::from(&keyboard);

    calculator.run(&default_penalties(), &text.to_string())
}

#[test]
fn calculates_basic() {
    assert_eq!(
        run_text("QUwiEOrp"),
        Tally { effort: 67, overheads: 0, awkwardness: 0, rollingness: 0, length: 8 }
    )
}

#[test]
fn penalises_same_finger_usage() {
    let p = default_penalties();
    let penalty = (p.same_hand + p.same_finger + p.row_jump) as u64;

    assert_eq!(
        run_text("fr"),
        Tally { effort: penalty + 6, overheads: penalty, awkwardness: 0, rollingness: 0, length: 2 }
    )
}

#[test]
fn does_not_penalise_same_key_usage() {
    assert_eq!(
        run_text("ff"),
        Tally { effort: 0, overheads: 0, awkwardness: 0, rollingness: 0, length: 2 }
    )
}

#[test]
fn penalises_row_jumps() {
    let p = default_penalties();
    let penalty = (p.same_hand + p.row_jump) as u64;

    assert_eq!(
        run_text("at"),
        Tally {
            effort: penalty + 1 + 11,
            overheads: penalty,
            awkwardness: 0,
            rollingness: 0,
            length: 2,
        }
    )
}

#[test]
fn penalises_row_skips() {
    let p = default_penalties();
    let penalty = (p.same_hand + p.row_skip) as u64;

    assert_eq!(
        run_text("vq"),
        Tally {
            effort: penalty + 6 + 6,
            overheads: penalty,
            awkwardness: 0,
            rollingness: 0,
            length: 2,
        }
    )
}

#[test]
fn penalises_bad_starters() {
    let p = default_penalties();
    let penalty = (p.same_hand + p.bad_starter) as u64;

    assert_eq!(
        run_text("qw"),
        Tally {
            effort: penalty + 6 + 2,
            overheads: penalty,
            awkwardness: p.bad_starter as u64,
            rollingness: 0,
            length: 2,
        }
    );
}

#[test]
fn doesnt_penalise_bad_starter_on_hand_switch() {
    assert_eq!(
        run_text("qi"),
        Tally { effort: 6 + 1, overheads: 0, awkwardness: 0, rollingness: 0, length: 2 }
    );
}

#[test]
fn adds_extra_penalty_on_bad_starters_and_row_jump() {
    let p = default_penalties();
    let penalty = (p.same_hand + p.bad_starter + p.row_jump) as u64;

    assert_eq!(
        run_text("qs"),
        Tally {
            effort: penalty + 6 + 0,
            overheads: penalty,
            awkwardness: p.bad_starter as u64,
            rollingness: 0,
            length: 2,
        }
    );
}

#[test]
fn adds_extra_penalty_on_bad_starters_and_skip_jump() {
    let p = default_penalties();
    let penalty = (p.same_hand + p.bad_starter + p.row_skip) as u64;

    assert_eq!(
        run_text("qv"),
        Tally {
            effort: penalty + 6 + 6,
            overheads: penalty,
            awkwardness: p.bad_starter as u64,
            rollingness: 0,
            length: 2,
        }
    );
}

#[test]
fn adds_extra_penalty_on_bad_starters_and_same_finger() {
    let p = default_penalties();
    let penalty = (p.same_hand + p.bad_starter + p.row_skip + p.same_finger) as u64;

    assert_eq!(
        run_text("qz"),
        Tally {
            effort: penalty + 6 + 7,
            overheads: penalty,
            awkwardness: p.bad_starter as u64,
            rollingness: 0,
            length: 2,
        }
    );
}

#[test]
fn doesnt_penalise_rolling_pairs_for_row_jumps() {
    assert_eq!(
        run_text("wfli"),
        Tally { effort: 45, overheads: 42, awkwardness: 0, rollingness: 1, length: 4 }
    );
}

#[test]
fn the_cost_model_is_pure() {
    let first = run_text("QUwiEOrp");
    let second = run_text("QUwiEOrp");
    assert_eq!(first, second);
}

#[test]
fn the_golden_total_is_the_sum_of_its_keys() {
    // The golden corpus alternates hands, so its cost is exactly the
    // eight key efforts read off the board; a shifted key costs its
    // own effort plus the other hand's shift key.
    let keyboard = Keyboard::from(qwerty(), Geometry::us_pc());
    let mut sum = 0u64;
    for c in "QUwiEOrp".chars() {
        sum += keyboard.key_for(&c).unwrap().effort as u64;
    }
    assert_eq!(sum, 67);
    assert_eq!(run_text("QUwiEOrp").effort, sum);
}
