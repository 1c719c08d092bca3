use halmak::chars::{decimal_string, upper_char, to_char_vec, chars_to_string};

#[test]
fn writes_numbers_in_decimal() {
    assert_eq!(decimal_string(0), "0".to_string());
    assert_eq!(decimal_string(7), "7".to_string());
    assert_eq!(decimal_string(10), "10".to_string());
    assert_eq!(decimal_string(20629), "20629".to_string());
    assert_eq!(decimal_string(u64::MAX), format!("{}", u64::MAX));
}

#[test]
fn raises_ascii_letters_only() {
    assert_eq!(upper_char('a'), 'A');
    assert_eq!(upper_char('z'), 'Z');
    assert_eq!(upper_char('A'), 'A');
    assert_eq!(upper_char(';'), ';');
}

#[test]
fn round_trips_characters_through_vectors() {
    let text = "qwerty ; ⇥";
    let chars = to_char_vec(text);
    assert_eq!(chars_to_string(&chars), text.to_string());
}
