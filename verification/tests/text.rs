use modfetch::text::{
    belongs, chars_of, chars_without_line_feeds, is_blank, same_text, span_end, starts_with, Class,
};

fn chars(text: &str) -> Vec<char> {
    text.chars().collect()
}

#[test]
fn white_space_is_what_unicode_says() {
    for code in 0u32..=0x10FFFF {
        if let Some(c) = char::from_u32(code) {
            assert_eq!(is_blank(c), c.is_whitespace(), "U+{:04X}", code);
        }
    }
}

#[test]
fn classes_tell_characters_apart() {
    assert!(belongs(Class::Blank, ' '));
    assert!(belongs(Class::Blank, '\t'));
    assert!(belongs(Class::Blank, '\r'));
    assert!(belongs(Class::Blank, '\n'));
    assert!(!belongs(Class::Blank, 'a'));
    assert!(belongs(Class::Solid, 'a'));
    assert!(belongs(Class::Solid, '?'));
    assert!(!belongs(Class::Solid, ' '));
    assert!(belongs(Class::Inline, ' '));
    assert!(belongs(Class::Inline, '\r'));
    assert!(belongs(Class::Inline, 'a'));
    assert!(!belongs(Class::Inline, '\n'));
}

#[test]
fn chars_of_keeps_every_character() {
    assert_eq!(chars_of(""), Vec::<char>::new());
    assert_eq!(chars_of("ab c"), vec!['a', 'b', ' ', 'c']);
    assert_eq!(chars_of("é\n"), vec!['é', '\n']);
}

#[test]
fn line_feeds_are_dropped_wherever_they_stand() {
    assert_eq!(chars_without_line_feeds("ab\n"), vec!['a', 'b']);
    assert_eq!(chars_without_line_feeds("\na\nb\n\n"), vec!['a', 'b']);
    assert_eq!(chars_without_line_feeds("ab\r\n"), vec!['a', 'b', '\r']);
    assert_eq!(chars_without_line_feeds(""), Vec::<char>::new());
    assert_eq!(chars_without_line_feeds("\n"), Vec::<char>::new());
}

#[test]
fn span_ends_at_the_first_character_of_another_class() {
    let text = chars("  ab  c\nd");
    assert_eq!(span_end(&text, 0, Class::Blank), 2);
    assert_eq!(span_end(&text, 2, Class::Blank), 2);
    assert_eq!(span_end(&text, 2, Class::Solid), 4);
    assert_eq!(span_end(&text, 4, Class::Blank), 6);
    assert_eq!(span_end(&text, 6, Class::Solid), 7);
    assert_eq!(span_end(&text, 0, Class::Inline), 7);
    assert_eq!(span_end(&text, 7, Class::Inline), 7);
    assert_eq!(span_end(&text, 8, Class::Inline), 9);
    assert_eq!(span_end(&text, 9, Class::Solid), 9);
}

#[test]
fn starts_with_compares_the_beginning() {
    assert!(starts_with(&chars("abc"), &chars("")));
    assert!(starts_with(&chars("abc"), &chars("ab")));
    assert!(starts_with(&chars("abc"), &chars("abc")));
    assert!(!starts_with(&chars("abc"), &chars("abcd")));
    assert!(!starts_with(&chars("abc"), &chars("b")));
    assert!(!starts_with(&chars("abc"), &chars("abd")));
    assert!(!starts_with(&chars(""), &chars("a")));
    assert!(starts_with(&chars(""), &chars("")));
}

#[test]
fn same_text_compares_all_of_it() {
    assert!(same_text(&chars("abc"), &chars("abc")));
    assert!(same_text(&chars(""), &chars("")));
    assert!(!same_text(&chars("abc"), &chars("ab")));
    assert!(!same_text(&chars("ab"), &chars("abc")));
    assert!(!same_text(&chars("abc"), &chars("abd")));
}
