use halmak::dna::DNA;
use halmak::layouts::{qwerty, dvorak};
use halmak::splicer::Splicer;

fn s(vec: Vec<(&str, &str)>) -> Vec<(String, String)> {
    vec.iter().map(|(a, b)| (a.to_string(), b.to_string())).collect()
}

#[test]
fn it_sexes_layouts() {
    let splicer = Splicer::new("".to_string());

    let child = splicer.sex(&qwerty(), &dvorak());
    let _ = child;
}

#[test]
fn it_merges_chunks_good() {
    let splicer = Splicer::new("".to_string());

    let clean = splicer.merge(
        &s(vec![("", ""), ("", ""), ("", ""), ("", "")]),
        &s(vec![("~", "`"), ("!", "1"), ("@", "2"), ("#", "3")]),
    );
    assert_eq!(clean, s(vec![("~", "`"), ("!", "1"), ("@", "2"), ("#", "3")]));

    let preserved_symbols = splicer.merge(
        &s(vec![("X", "x"), ("?", ""), ("", "!"), ("", "")]),
        &s(vec![("~", "`"), ("!", "1"), ("@", "2"), ("#", "3")]),
    );
    assert_eq!(preserved_symbols, s(vec![("X", "x"), ("?", "1"), ("@", "!"), ("#", "3")]));

    let preserved_letters = splicer.merge(
        &s(vec![("X", "x"), ("?", ""), ("", "!"), ("", "")]),
        &s(vec![("Q", "q"), ("W", "w"), ("E", "e"), ("R", "r")]),
    );
    assert_eq!(preserved_letters, s(vec![("X", "x"), ("?", ""), ("", "!"), ("R", "r")]));
}

#[test]
fn it_chunks_dnas_for_days() {
    let splicer = Splicer::new("".to_string());

    let chunks = splicer.chunk(&DNA::from(&qwerty()));

    assert_eq!(
        chunks,
        vec![
            s(vec![("~", "`"), ("!", "1"), ("@", "2"), ("#", "3"), ("$", "4"), ("%", "5")]),
            s(vec![("^", "6"), ("&", "7"), ("*", "8"), ("(", "9"), (")", "0"), ("_", "-")]),
            s(vec![("+", "="), ("Q", "q"), ("W", "w"), ("E", "e"), ("R", "r"), ("T", "t")]),
            s(vec![("Y", "y"), ("U", "u"), ("I", "i"), ("O", "o"), ("P", "p"), ("{", "[")]),
            s(vec![("}", "]"), ("|", "\\"), ("A", "a"), ("S", "s"), ("D", "d"), ("F", "f")]),
            s(vec![("G", "g"), ("H", "h"), ("J", "j"), ("K", "k"), ("L", "l"), (":", ";")]),
            s(vec![("\"", "\'"), ("Z", "z"), ("X", "x"), ("C", "c"), ("V", "v"), ("B", "b")]),
            s(vec![("N", "n"), ("M", "m"), ("<", ","), (">", "."), ("?", "/")]),
        ]
    );
}

#[test]
fn test_random_positive() {
    let splicer = Splicer::new("".to_string());
    let mut seen = [false, false];

    for _ in 0..2000 {
        if splicer.random_positive() {
            seen[0] = true;
        } else {
            seen[1] = true;
        }
    }

    assert!(seen[0] && seen[1]);
}

#[test]
fn blank_dna_seeds_only_the_preserved_symbols() {
    let splicer = Splicer::new("∙ ! ∙\n∙ 1 ∙\nQ ∙ ∙\nq ∙ ∙".to_string());
    let blank = splicer.blank_dna(&DNA::from(&qwerty()));
    assert_eq!(blank.len(), 47);
    assert_eq!(blank.pair_at(1), ("!".to_string(), "1".to_string()));
    assert_eq!(blank.pair_at(3), ("Q".to_string(), "q".to_string()));
    assert_eq!(blank.pair_at(0), ("".to_string(), "".to_string()));
}
