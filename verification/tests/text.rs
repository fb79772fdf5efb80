use erock::text::{chars_of, same_text, starts_with};

#[test]
fn chars_of_keeps_every_character() {
    assert_eq!(chars_of("aé-1"), vec!['a', 'é', '-', '1']);
    assert_eq!(chars_of(""), Vec::<char>::new());
}

#[test]
fn texts_are_compared_whole() {
    assert!(same_text(&chars_of("abc"), &chars_of("abc")));
    assert!(!same_text(&chars_of("abc"), &chars_of("abd")));
    assert!(!same_text(&chars_of("abc"), &chars_of("ab")));
    assert!(same_text(&chars_of(""), &chars_of("")));
}

#[test]
fn a_prefix_is_found_at_the_start_only() {
    assert!(starts_with(&chars_of("abc"), &chars_of("ab")));
    assert!(starts_with(&chars_of("abc"), &chars_of("")));
    assert!(starts_with(&chars_of("abc"), &chars_of("abc")));
    assert!(!starts_with(&chars_of("abc"), &chars_of("bc")));
    assert!(!starts_with(&chars_of("ab"), &chars_of("abc")));
}
