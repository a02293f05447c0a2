use rs_grep::cursor::{
    _peek_char, contains_char, match_alphanumeric, match_charset, match_digit, match_one_or_more,
    match_single_char, match_zero_or_more,
};

#[test]
fn peek_leaves_the_cursor_in_place() {
    let mut chars = "ab".chars();
    assert_eq!(_peek_char(&mut chars), Some('a'));
    assert_eq!(_peek_char(&mut chars), Some('a'));
    assert_eq!(chars.as_str(), "ab");
    chars.next();
    assert_eq!(_peek_char(&mut chars), Some('b'));
    chars.next();
    assert_eq!(_peek_char(&mut chars), None);
    assert_eq!(chars.as_str(), "");
}

#[test]
fn single_char_takes_one_character() {
    let mut chars = "ab".chars();
    assert!(match_single_char(&mut chars, 'a'));
    assert_eq!(chars.as_str(), "b");
    assert!(!match_single_char(&mut chars, 'a'));
    assert_eq!(chars.as_str(), "");
    assert!(!match_single_char(&mut chars, 'a'));
    assert_eq!(chars.as_str(), "");
}

#[test]
fn digit_takes_one_character() {
    let mut chars = "09a\u{663}".chars();
    assert!(match_digit(&mut chars));
    assert!(match_digit(&mut chars));
    assert_eq!(chars.as_str(), "a\u{663}");
    assert!(!match_digit(&mut chars));
    assert_eq!(chars.as_str(), "\u{663}");
    assert!(!match_digit(&mut chars));
    assert!(!match_digit(&mut chars));
    let mut chars = "/:".chars();
    assert!(!match_digit(&mut chars));
    assert!(!match_digit(&mut chars));
}

#[test]
fn alphanumeric_takes_one_character() {
    let mut chars = "aZ5\u{e9}\u{663}_- ".chars();
    assert!(match_alphanumeric(&mut chars));
    assert!(match_alphanumeric(&mut chars));
    assert!(match_alphanumeric(&mut chars));
    assert!(match_alphanumeric(&mut chars));
    assert!(match_alphanumeric(&mut chars));
    assert_eq!(chars.as_str(), "_- ");
    assert!(!match_alphanumeric(&mut chars));
    assert!(!match_alphanumeric(&mut chars));
    assert!(!match_alphanumeric(&mut chars));
    assert!(!match_alphanumeric(&mut chars));
    assert_eq!(chars.as_str(), "");
}

#[test]
fn charset_takes_one_character() {
    let mut chars = "abz".chars();
    assert!(match_charset(&mut chars, "abc", false));
    assert_eq!(chars.as_str(), "bz");
    assert!(!match_charset(&mut chars, "abc", true));
    assert_eq!(chars.as_str(), "z");
    assert!(match_charset(&mut chars, "abc", true));
    assert_eq!(chars.as_str(), "");
    assert!(!match_charset(&mut chars, "abc", true));
    assert!(!match_charset(&mut chars, "abc", false));
}

#[test]
fn empty_charset() {
    let mut chars = "ab".chars();
    assert!(!match_charset(&mut chars, "", false));
    assert!(match_charset(&mut chars, "", true));
    assert!(!match_charset(&mut chars, "", true));
}

#[test]
fn one_or_more_takes_the_run_and_nothing_else() {
    let mut chars = "aaab".chars();
    assert!(match_one_or_more(&mut chars, 'a'));
    assert_eq!(chars.as_str(), "b");
    assert!(!match_one_or_more(&mut chars, 'a'));
    assert_eq!(chars.as_str(), "b");
    assert!(match_one_or_more(&mut chars, 'b'));
    assert_eq!(chars.as_str(), "");
    assert!(!match_one_or_more(&mut chars, 'b'));
}

#[test]
fn zero_or_more_takes_the_run_and_nothing_else() {
    let mut chars = "abb".chars();
    assert!(match_zero_or_more(&mut chars, 'a'));
    assert_eq!(chars.as_str(), "bb");
    assert!(match_zero_or_more(&mut chars, 'a'));
    assert_eq!(chars.as_str(), "bb");
    assert!(!match_zero_or_more(&mut chars, 'b'));
    assert_eq!(chars.as_str(), "");
    assert!(match_zero_or_more(&mut chars, 'b'));
}

#[test]
fn zero_or_more_refuses_any_longer_run() {
    for n in 2..300usize {
        let text = "a".repeat(n) + "b";
        let mut chars = text.chars();
        assert!(!match_zero_or_more(&mut chars, 'a'));
        assert_eq!(chars.as_str(), "b");
        let mut chars = text.chars();
        assert!(match_one_or_more(&mut chars, 'a'));
        assert_eq!(chars.as_str(), "b");
    }
}

#[test]
fn contains_char_is_membership() {
    assert!(contains_char("abc", 'a'));
    assert!(contains_char("abc", 'c'));
    assert!(!contains_char("abc", 'd'));
    assert!(!contains_char("", 'a'));
    assert!(contains_char("caf\u{e9}", '\u{e9}'));
    assert!(!contains_char("cafe", '\u{e9}'));
}
