use json_viewer::simple_matcher::{
    MatchStatus, Pattern, PatternInputItem, PatternItem, PatternParseError,
};

fn assert_match<E: std::fmt::Debug>(p: Result<Pattern, E>, s: &str, status: MatchStatus) {
    let p = p.expect("Could not parse error: {p:?}");

    let got = p.match_str(s);
    assert!(
        got == status,
        "Statuses don't match. p: `{p:?}`, s: `{s:?}`, got: `{got:?}`, expected: `{status:?}`"
    );
}

#[test]
fn parse() {
    type I = PatternItem;

    assert_eq!(
        "j".parse::<Pattern>().unwrap().items(),
        Pattern::new(vec![I::Literal('j')]).items()
    );

    assert_eq!(
        "jj".parse::<Pattern>().unwrap().items(),
        Pattern::new(vec![I::Literal('j'), I::Literal('j')]).items()
    );

    assert_eq!(
        "f\\c".parse::<Pattern>().unwrap().items(),
        Pattern::new(vec![I::Literal('f'), I::AnyChar]).items()
    );
}

#[test]
fn test() {
    assert_match("j".parse::<Pattern>(), "j", MatchStatus::FullMatch);

    assert_match("jj".parse::<Pattern>(), "jj", MatchStatus::FullMatch);

    assert_match("f\\c".parse::<Pattern>(), "A", MatchStatus::NoMatch);
    assert_match("f\\c".parse::<Pattern>(), "fX", MatchStatus::FullMatch);
    assert_match("f\\c".parse::<Pattern>(), "f\"", MatchStatus::FullMatch);

    assert_match("gg".parse::<Pattern>(), "fX", MatchStatus::NoMatch);
    assert_match("gg".parse::<Pattern>(), "g", MatchStatus::PartialMatch);
    assert_match("gg".parse::<Pattern>(), "gg", MatchStatus::FullMatch);
    assert_match("gg".parse::<Pattern>(), "ggg", MatchStatus::NoMatch);
}

#[test]
fn compile_escapes() {
    type I = PatternItem;
    assert_eq!(
        Pattern::compile("\\\\\\n\\t\\d\\c").unwrap().items(),
        &vec![
            I::Literal('\\'),
            I::Literal('\n'),
            I::Literal('\t'),
            I::Number,
            I::AnyChar
        ]
    );
    assert_eq!(Pattern::compile("").unwrap().items(), &Vec::<I>::new());
}

#[test]
fn compile_invalid_escape() {
    assert_eq!(
        Pattern::compile("a\\x").unwrap_err(),
        PatternParseError::InvalidEscape('x')
    );
    assert_eq!(
        Pattern::compile("\\q\\z").unwrap_err(),
        PatternParseError::InvalidEscape('q')
    );
    assert_eq!(
        PatternParseError::InvalidEscape('x').message(),
        "Invalid escape character `x`"
    );
}

#[test]
fn compile_trailing_backslash_stands_for_nothing() {
    assert_eq!(
        Pattern::compile("a\\").unwrap().items(),
        &vec![PatternItem::Literal('a')]
    );
}

#[test]
fn empty_pattern_and_empty_input() {
    let empty = Pattern::compile("").unwrap();
    assert_eq!(empty.match_str(""), MatchStatus::FullMatch);
    assert_eq!(empty.match_str("a"), MatchStatus::NoMatch);
    let g = Pattern::compile("g").unwrap();
    assert_eq!(g.match_str(""), MatchStatus::PartialMatch);
}

#[test]
fn number_takes_the_longest_run() {
    let p = Pattern::compile("\\dj").unwrap();
    assert_eq!(p.match_str("12j"), MatchStatus::FullMatch);
    assert_eq!(p.match_str("12"), MatchStatus::PartialMatch);
    assert_eq!(p.match_str("j"), MatchStatus::NoMatch);
    assert_eq!(p.match_str("1x"), MatchStatus::NoMatch);
}

#[test]
fn number_gives_nothing_back() {
    // The run takes the 5 as well, so the literal finds the input used up.
    let p = Pattern::compile("\\d5").unwrap();
    assert_eq!(p.match_str("15"), MatchStatus::PartialMatch);
    let q = Pattern::compile("\\d\\d").unwrap();
    assert_eq!(q.match_str("12"), MatchStatus::PartialMatch);
}

#[test]
fn token_never_matches_characters() {
    let p = Pattern::new(vec![PatternItem::Token("tab")]);
    assert_eq!(p.match_str("t"), MatchStatus::NoMatch);
    assert_eq!(p.match_str(""), MatchStatus::PartialMatch);
}

#[test]
fn match_aux_goes_by_the_given_classes() {
    let pattern = [PatternItem::Number, PatternItem::Literal('x')];
    let as_digits = [
        PatternInputItem { c: 'a', numeric: true },
        PatternInputItem { c: 'b', numeric: true },
        PatternInputItem { c: 'x', numeric: false },
    ];
    assert_eq!(Pattern::match_aux(&pattern, &as_digits), MatchStatus::FullMatch);
    let as_letters = [
        PatternInputItem { c: '1', numeric: false },
        PatternInputItem { c: 'x', numeric: false },
    ];
    assert_eq!(Pattern::match_aux(&pattern, &as_letters), MatchStatus::NoMatch);
}

#[test]
fn input_items_carry_the_class_of_their_character() {
    let items = PatternInputItem::str_to_item_char_vec("a1");
    assert_eq!(
        items,
        vec![
            PatternInputItem { c: 'a', numeric: false },
            PatternInputItem { c: '1', numeric: true }
        ]
    );
    assert!(items[1].is_char_numeric());
    assert!(!PatternInputItem::from_char('x').is_char_numeric());
}

#[test]
fn variant_tests() {
    assert!(MatchStatus::FullMatch.is_full_match());
    assert!(MatchStatus::PartialMatch.is_partial_match());
    assert!(MatchStatus::NoMatch.is_no_match());
    assert!(!MatchStatus::NoMatch.is_full_match());
    assert!(PatternItem::Token("x").is_token());
    assert!(PatternItem::Literal('x').is_literal());
    assert!(PatternItem::Number.is_number());
    assert!(PatternItem::AnyChar.is_any_char());
    assert!(!PatternItem::AnyChar.is_number());
}
