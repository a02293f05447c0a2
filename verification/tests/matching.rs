use rs_grep::{match_pattern, CompileError, GrepError, MatchError, PatternKind, Regex};

#[test]
fn multiple_character_classes() {
    let result: bool = match_pattern("sally has 3 apples", r"\d apples").unwrap();
    assert_eq!(result, true)
}

#[test]
fn start_anchor() {
    let result: bool = match_pattern("slog", r"^log").unwrap();
    assert_eq!(result, false)
}

#[test]
fn end_anchor() {
    let result: bool = match_pattern("log", r"log$").unwrap();
    assert_eq!(result, true)
}

#[test]
fn one_or_more() {
    let result: bool = match_pattern("cats", "^ca+ts").unwrap();
    assert_eq!(result, true)
}

#[test]
fn zero_or_more() {
    let result: bool = match_pattern("cat", "ca?t").unwrap();
    assert_eq!(result, true)
}

#[test]
fn digit_class_needs_a_digit() {
    assert_eq!(match_pattern("sally has x apples", r"\d apples"), Ok(false));
    assert_eq!(match_pattern("a12", r"\d\d"), Ok(true));
    assert_eq!(match_pattern("a1b2", r"\d\d"), Ok(false));
}

#[test]
fn start_anchor_holds_the_match_at_the_first_offset() {
    assert_eq!(match_pattern("log", "^log"), Ok(true));
    assert_eq!(match_pattern("logs", "^log"), Ok(true));
    assert_eq!(match_pattern("a log", "^log"), Ok(false));
    assert_eq!(match_pattern("", "^log"), Ok(false));
}

#[test]
fn end_anchor_needs_the_end_of_input() {
    assert_eq!(match_pattern("logs", "log$"), Ok(false));
    assert_eq!(match_pattern("a log", "log$"), Ok(true));
    assert_eq!(match_pattern("abc", "ab$"), Ok(false));
}

#[test]
fn one_or_more_needs_one() {
    assert_eq!(match_pattern("cts", "^ca+ts"), Ok(false));
    assert_eq!(match_pattern("caaaats", "^ca+ts"), Ok(true));
    assert_eq!(match_pattern("xcaats", "ca+ts"), Ok(true));
}

#[test]
fn zero_or_one_refuses_a_longer_run() {
    assert_eq!(match_pattern("ct", "ca?t"), Ok(true));
    assert_eq!(match_pattern("caat", "ca?t"), Ok(false));
    assert_eq!(match_pattern("aa", "a?"), Ok(true));
    assert_eq!(match_pattern("b", "a?"), Ok(true));
}

#[test]
fn single_character_pattern_is_containment() {
    let patterns = ["a", ".", "\\", "^", "$", "[", "]", "+", "?", "d", "\u{e9}"];
    let inputs = ["", "a", "banana", "x.y", "back\\slash", "^start", "end$", "[set]", "1+1", "why?", "caf\u{e9}", "\u{e9}t\u{e9}"];
    for pattern in patterns {
        for input in inputs {
            assert_eq!(match_pattern(input, pattern), Ok(input.contains(pattern)));
        }
    }
}

#[test]
fn single_metacharacter_is_taken_literally() {
    assert_eq!(match_pattern("abc", "."), Ok(false));
    assert_eq!(match_pattern("a.c", "."), Ok(true));
    assert_eq!(match_pattern("abc", "\\"), Ok(false));
    assert_eq!(match_pattern("a\\c", "\\"), Ok(true));
    assert_eq!(match_pattern("abc", "^"), Ok(false));
    assert_eq!(match_pattern("abc", "$"), Ok(false));
    assert_eq!(match_pattern("abc", "["), Ok(false));
}

#[test]
fn wildcard_takes_any_one_character() {
    assert_eq!(match_pattern("cat", "c.t"), Ok(true));
    assert_eq!(match_pattern("ct", "c.t"), Ok(false));
    assert_eq!(match_pattern("xcut", "c.t"), Ok(true));
    assert_eq!(match_pattern("c", "c."), Ok(false));
}

#[test]
fn alphanumeric_class() {
    assert_eq!(match_pattern("_a1", r"\w\w"), Ok(true));
    assert_eq!(match_pattern("-+", r"\w\w"), Ok(false));
    assert_eq!(match_pattern("a-b", r"\w\w"), Ok(false));
    assert_eq!(match_pattern("\u{e9}9", r"\w\w"), Ok(true));
}

#[test]
fn character_sets() {
    assert_eq!(match_pattern("zbx", "[abc]x"), Ok(true));
    assert_eq!(match_pattern("zdx", "[abc]x"), Ok(false));
    assert_eq!(match_pattern("bx", "[^abc]x"), Ok(false));
    assert_eq!(match_pattern("dx", "[^abc]x"), Ok(true));
    assert_eq!(match_pattern("x", "[^abc]x"), Ok(false));
    assert_eq!(match_pattern("a^", "[b^]$"), Ok(true));
    assert_eq!(match_pattern("abc", "[]"), Ok(false));
    assert_eq!(match_pattern("abc", "[^]"), Ok(true));
}

#[test]
fn escaped_backslash_is_a_literal() {
    assert_eq!(match_pattern("a\\b", r"a\\b"), Ok(true));
    assert_eq!(match_pattern("ab", r"a\\b"), Ok(false));
}

#[test]
fn anchors_away_from_the_edges_are_passed_over() {
    assert_eq!(match_pattern("ab", "a^b"), Ok(true));
    assert_eq!(match_pattern("abc", "a$bc"), Ok(true));
    assert_eq!(match_pattern("a^b", "a^b"), Ok(false));
}

#[test]
fn end_anchor_after_a_quantifier_is_passed_over() {
    // Three source characters, two atoms: the anchor records 1, the last
    // source position is 2.
    assert_eq!(match_pattern("aab", "a+$"), Ok(true));
    assert_eq!(match_pattern("ab", "a?$"), Ok(true));
}

#[test]
fn end_anchor_after_an_escape_or_a_set_is_passed_over() {
    assert_eq!(match_pattern("1a", r"\d$"), Ok(true));
    assert_eq!(match_pattern("ab", "[a]$"), Ok(true));
    assert_eq!(match_pattern("a\\b", r"\\$"), Ok(true));
}

#[test]
fn second_start_anchor_is_passed_over() {
    assert_eq!(match_pattern("a", "^^a"), Ok(true));
    assert_eq!(match_pattern("ba", "^^a"), Ok(false));
}

#[test]
fn start_and_end_anchor_alone() {
    assert_eq!(match_pattern("", "^$"), Ok(false));
    assert_eq!(match_pattern("x", "^$"), Ok(false));
}

#[test]
fn empty_pattern_matches_any_input_but_the_empty_one() {
    assert_eq!(match_pattern("abc", ""), Ok(true));
    assert_eq!(match_pattern("", ""), Ok(false));
}

#[test]
fn empty_input_matches_nothing() {
    assert_eq!(match_pattern("", "ab"), Ok(false));
    assert_eq!(match_pattern("", "a?b?"), Ok(false));
    assert_eq!(match_pattern("", "a"), Ok(false));
}

#[test]
fn a_run_is_never_given_back() {
    assert_eq!(match_pattern("aaab", "a+ab"), Ok(false));
    assert_eq!(match_pattern("aaab", "a+b"), Ok(true));
}

#[test]
fn the_first_successful_offset_answers() {
    assert_eq!(match_pattern("xxabxxab", "ab"), Ok(true));
    assert_eq!(match_pattern("ababab", "bab"), Ok(true));
}

#[test]
fn compile_errors_reach_the_caller() {
    assert_eq!(
        match_pattern("abc", "[abc"),
        Err(GrepError::Compile(CompileError::UnterminatedCharacterSet))
    );
    assert_eq!(
        match_pattern("abc", "abc\\"),
        Err(GrepError::Compile(CompileError::DanglingEscape))
    );
    assert_eq!(
        match_pattern("abc", r"\x"),
        Err(GrepError::Compile(CompileError::UnsupportedEscape))
    );
}

#[test]
fn offset_inside_a_character_is_reported() {
    assert_eq!(
        match_pattern("\u{e9}a", "ab"),
        Err(GrepError::Match(MatchError::MisalignedOffset))
    );
    assert_eq!(
        match_pattern("a\u{e9}", "\u{e9}x"),
        Err(GrepError::Match(MatchError::MisalignedOffset))
    );
    assert_eq!(
        match_pattern("\u{e9}", "ab"),
        Err(GrepError::Match(MatchError::MisalignedOffset))
    );
}

#[test]
fn wide_characters_match_where_no_offset_is_skipped_over_them() {
    assert_eq!(match_pattern("\u{e9}a", "\u{e9}a"), Ok(true));
    assert_eq!(match_pattern("a\u{e9}", "\u{e9}$"), Ok(true));
    assert_eq!(match_pattern("ab\u{e9}", "b."), Ok(true));
    assert_eq!(match_pattern("\u{e9}a", "^ab"), Ok(false));
}

#[test]
fn end_anchor_counts_source_characters() {
    assert_eq!(match_pattern("\u{e9}", "\u{e9}$"), Ok(true));
    assert_eq!(
        match_pattern("\u{e9}a", "\u{e9}$"),
        Err(GrepError::Match(MatchError::MisalignedOffset))
    );
}

#[test]
fn matching_twice_answers_the_same() {
    let cases = [
        ("sally has 3 apples", r"\d apples"),
        ("slog", "^log"),
        ("caat", "ca?t"),
        ("abc", "[abc"),
        ("\u{e9}a", "ab"),
        ("x.y", "."),
    ];
    for (input, pattern) in cases {
        let first = match_pattern(input, pattern);
        let second = match_pattern(input, pattern);
        assert_eq!(first, second);
    }
}

#[test]
fn match_input_without_skip_tries_the_first_offset_only() {
    let regex = Regex::from_str("log").unwrap();
    assert_eq!(regex.match_input("slog", &regex.pattern_vec, false), Ok(false));
    assert_eq!(regex.match_input("slog", &regex.pattern_vec, true), Ok(true));
    assert_eq!(regex.match_input("logs", &regex.pattern_vec, false), Ok(true));
    assert_eq!(regex.match_input("", &regex.pattern_vec, false), Ok(false));
}

#[test]
fn match_input_walks_the_atoms_it_is_given() {
    let regex = Regex::from_str("^log").unwrap();
    assert_eq!(regex.match_input("log", &regex.pattern_vec[1..], true), Ok(true));
    assert_eq!(regex.match_input("slog", &regex.pattern_vec[1..], true), Ok(true));
    assert_eq!(regex.match_input("slog", &regex.pattern_vec, true), Ok(false));
    assert_eq!(regex.match_input("slog", &[], true), Ok(true));
}

#[test]
fn end_anchor_is_measured_against_the_pattern_length() {
    let atoms = vec![PatternKind::SingleChar('a'), PatternKind::EndAnchor(1)];
    let exact = Regex { pattern_vec: vec![], pattern_len: 2 };
    assert_eq!(exact.match_input("ab", &atoms, true), Ok(false));
    assert_eq!(exact.match_input("ba", &atoms, true), Ok(true));
    let longer = Regex { pattern_vec: vec![], pattern_len: 3 };
    assert_eq!(longer.match_input("ab", &atoms, true), Ok(true));
    let empty = Regex { pattern_vec: vec![], pattern_len: 0 };
    assert_eq!(empty.match_input("ab", &atoms, true), Ok(true));
}

#[test]
fn misplaced_start_anchor_is_an_invalid_atom() {
    let atoms = vec![PatternKind::SingleChar('a'), PatternKind::StartAnchor(0)];
    let regex = Regex { pattern_vec: vec![], pattern_len: 2 };
    assert_eq!(regex.match_input("a", &atoms, true), Err(MatchError::InvalidAtom));
    assert_eq!(regex.match_input("ba", &atoms, true), Err(MatchError::InvalidAtom));
    assert_eq!(regex.match_input("b", &atoms, true), Ok(false));
    assert_eq!(regex.match_input("b", &atoms, false), Ok(false));
}

#[test]
fn compiled_patterns_hold_no_invalid_atom() {
    let patterns = ["^a", "a^b", "^^", "a$^", "$^a", "^a+$", "[^a]^"];
    let inputs = ["", "a", "ab", "^", "aa"];
    for pattern in patterns {
        for input in inputs {
            assert_ne!(
                match_pattern(input, pattern),
                Err(GrepError::Match(MatchError::InvalidAtom))
            );
        }
    }
}

/// A scan that slices the stored text at every byte offset in turn.
fn scan_by_byte_offsets(regex: &Regex, input: &str) -> Result<bool, MatchError> {
    for offset in 0..input.len() {
        if !input.is_char_boundary(offset) {
            return Err(MatchError::MisalignedOffset);
        }
        if regex.match_input(&input[offset..], &regex.pattern_vec, false)? {
            return Ok(true);
        }
    }
    Ok(false)
}

#[test]
fn start_offsets_are_byte_offsets() {
    let patterns = ["ab", "b.", r"\w\w", "a+b", "[\u{e9}]x", "x$", "\u{e9}", "", "a?b", r"\d"];
    let inputs = [
        "",
        "abc",
        "\u{e9}ab",
        "a\u{e9}b",
        "ab\u{e9}",
        "\u{e9}\u{e9}x",
        "\u{65e5}\u{672c}\u{8a9e}ab",
        "x\u{1f600}",
        "\u{1f600}x",
        "aab\u{e9}x",
        "7\u{e9}",
    ];
    for pattern in patterns {
        let regex = Regex::from_str(pattern).unwrap();
        for input in inputs {
            assert_eq!(
                regex.match_input(input, &regex.pattern_vec, true),
                scan_by_byte_offsets(&regex, input),
                "pattern {:?}, input {:?}",
                pattern,
                input
            );
        }
    }
}
