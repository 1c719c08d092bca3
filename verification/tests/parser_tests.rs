use halmak::parser::{value_for, position_for, two_layer_mapping_for, template_is_balanced};

const TEMPLATE: &'static str = "
    1   2 3
      a b c
         v x z
  ";

#[test]
fn it_parses_templates_correctly() {
    assert_eq!(value_for(TEMPLATE, (0, 1)), Some(String::from("2")));
    assert_eq!(value_for(TEMPLATE, (1, 0)), Some(String::from("a")));
    assert_eq!(value_for(TEMPLATE, (2, 2)), Some(String::from("z")));
}

#[test]
fn it_returns_none_when_a_position_doesnt_exists() {
    assert_eq!(value_for(TEMPLATE, (22, 22)), None);
}

#[test]
fn it_finds_positions_by_value() {
    assert_eq!(position_for(TEMPLATE, String::from("1")), Some((0, 0)));
    assert_eq!(position_for(TEMPLATE, String::from("b")), Some((1, 1)));
    assert_eq!(position_for(TEMPLATE, String::from("z")), Some((2, 2)));
}

#[test]
fn it_returns_none_when_a_value_doesnt_exists() {
    assert_eq!(position_for(TEMPLATE, String::from("shnt")), None);
}

#[test]
fn it_builds_to_layer_mappings_correctly() {
    let template = "
      W L R B Z :
      w l r b z ;
        S H N T (
        s h n t ,
    "
    .to_string();

    let mapping = two_layer_mapping_for(&template);
    let expected: Vec<((usize, usize), (String, String))> = vec![
        ((0, 0), ("W".to_string(), "w".to_string())),
        ((0, 1), ("L".to_string(), "l".to_string())),
        ((0, 2), ("R".to_string(), "r".to_string())),
        ((0, 3), ("B".to_string(), "b".to_string())),
        ((0, 4), ("Z".to_string(), "z".to_string())),
        ((0, 5), (":".to_string(), ";".to_string())),
        ((1, 0), ("S".to_string(), "s".to_string())),
        ((1, 1), ("H".to_string(), "h".to_string())),
        ((1, 2), ("N".to_string(), "n".to_string())),
        ((1, 3), ("T".to_string(), "t".to_string())),
        ((1, 4), ("(".to_string(), ",".to_string())),
    ];
    assert_eq!(mapping, expected);
}

#[test]
fn an_unbalanced_template_is_told_apart_and_read_truncated() {
    let odd = "A B\na b\nC D".to_string();
    assert!(!template_is_balanced(&odd));
    // The unpaired trailing line adds nothing to the reading.
    let mapping = two_layer_mapping_for(&odd);
    let even = "A B\na b".to_string();
    assert!(template_is_balanced(&even));
    assert_eq!(mapping, two_layer_mapping_for(&even));
}
