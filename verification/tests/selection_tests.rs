use halmak::config::default_selection;
use halmak::selection::{Score, Scores, Selection};

fn get_scores() -> Scores {
    // 1.1, 1.2, 1.3 and 1.5 performance against 0.3, 0.5, 0.8 and 1.1
    // deviation, in thousandths.
    vec![
        Score { performance: 1100, deviation: 300 },
        Score { performance: 1200, deviation: 500 },
        Score { performance: 1300, deviation: 800 },
        Score { performance: 1500, deviation: 1100 },
    ]
}

#[test]
fn test_selection_of_the_fittest() {
    let selection = Selection { scores: get_scores() };
    let config = default_selection();
    let mut the_fittest_was_selected = 0;

    for _ in 0..1000 {
        let selected = selection.lucky_draw(&config);
        let the_fittest = &selection.scores[3];

        if selected == *the_fittest {
            the_fittest_was_selected += 1;
        }
    }

    // the last (fittest) is returned about half of the times
    assert!((450..550).contains(&the_fittest_was_selected));
}

#[test]
fn test_rank_space_selection() {
    let selection = Selection { scores: get_scores() };
    let config = default_selection();
    let rank_space = selection.create_rank_space(&config);

    let first = rank_space[0];
    let second = rank_space[1];
    let third = rank_space[2];
    let fourth = rank_space[3];

    let mut first_selected = 0;
    let mut second_selected = 0;
    let mut third_selected = 0;
    let mut fourth_selected = 0;

    for _ in 0..1000 {
        let selected = selection.select_from_rank_space(&rank_space, &config);
        if selected == first {
            first_selected += 1;
        } else if selected == second {
            second_selected += 1;
        } else if selected == third {
            third_selected += 1;
        } else if selected == fourth {
            fourth_selected += 1;
        } else {
            panic!("Unexpected item returned");
        }
    }

    assert!((450..550).contains(&first_selected));
    assert!((200..300).contains(&second_selected));
    assert!((50..150).contains(&third_selected));
    assert!((50..150).contains(&fourth_selected));
}

#[test]
fn test_creation_of_rank_space() {
    let sel = Selection { scores: get_scores() };
    let config = default_selection();

    assert_eq!(
        sel.create_rank_space(&config),
        vec![(3, 0), (2, 92485), (1, 338116), (0, 601273)]
    )
}

#[test]
fn test_ratings_calculation() {
    let sel = Selection { scores: get_scores() };
    let config = default_selection();

    assert_eq!(sel.calculate_ranks(&config), vec![601273, 338116, 92485, 0])
}

#[test]
fn test_renormalise() {
    let sel = Selection { scores: get_scores() };

    assert_eq!(
        sel.renormalise(),
        vec![
            Score { performance: 733, deviation: 272 },
            Score { performance: 800, deviation: 454 },
            Score { performance: 866, deviation: 727 },
            Score { performance: 1000, deviation: 1000 },
        ]
    )
}
