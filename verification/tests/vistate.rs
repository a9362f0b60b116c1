use json_viewer::simple_matcher::PatternInputItem;
use json_viewer::vi::vimotions::{
    classify_chars, find_next_char, jump_next_char, next_word, scan_word, CharType,
};
use json_viewer::vi::vistate::{ViCommand, ViCommandBuilder, ViState};

fn feed(state: &mut ViState, keys: &str) -> Vec<Option<ViCommand>> {
    keys.chars().map(|c| state.process(c)).collect()
}

#[test]
fn gg_is_first_line() {
    let mut s = ViState::new();
    assert_eq!(s.process('g'), None);
    assert_eq!(s.process('g'), Some(ViCommand::FirstLine));
}

#[test]
fn f_takes_the_next_key() {
    let mut s = ViState::new();
    assert_eq!(s.process('f'), None);
    assert_eq!(s.process('X'), Some(ViCommand::JumpNextChar('X')));
    assert_eq!(s.process('F'), None);
    assert_eq!(s.process('"'), Some(ViCommand::JumpPreviousChar('"')));
}

#[test]
fn unknown_key_clears_pending() {
    let mut s = ViState::new();
    assert_eq!(s.process('z'), None);
    // Nothing is pending: the next keys are read from the start.
    assert_eq!(s.process('g'), None);
    assert_eq!(s.process('g'), Some(ViCommand::FirstLine));
}

#[test]
fn broken_sequence_is_dropped_whole() {
    let mut s = ViState::new();
    // `g` then `j` matches nothing; the `j` does not count as a new start.
    assert_eq!(feed(&mut s, "gj"), vec![None, None]);
    assert_eq!(s.process('j'), Some(ViCommand::Down));
}

#[test]
fn single_keys() {
    let mut s = ViState::new();
    assert_eq!(
        feed(&mut s, "hjklwbG0$np"),
        vec![
            Some(ViCommand::Left),
            Some(ViCommand::Down),
            Some(ViCommand::Up),
            Some(ViCommand::Right),
            Some(ViCommand::MoveWordForward),
            Some(ViCommand::MoveWordBackward),
            Some(ViCommand::LastLine),
            Some(ViCommand::FirstColumn),
            Some(ViCommand::LastColumn),
            Some(ViCommand::Next),
            Some(ViCommand::Previous),
        ]
    );
}

#[test]
fn reset_forgets_pending_keys() {
    let mut s = ViState::new();
    assert_eq!(s.process('g'), None);
    s.reset();
    assert_eq!(s.process('g'), None);
    assert_eq!(s.process('g'), Some(ViCommand::FirstLine));
}

#[test]
fn builders() {
    let keys = PatternInputItem::str_to_item_char_vec("fq");
    assert_eq!(
        ViCommandBuilder::Fixed(ViCommand::Up).build(&keys),
        ViCommand::Up
    );
    assert_eq!(
        ViCommandBuilder::JumpNextChar.build(&keys),
        ViCommand::JumpNextChar('q')
    );
    assert_eq!(
        ViCommandBuilder::JumpPreviousChar.build(&keys),
        ViCommand::JumpPreviousChar('q')
    );
}

fn chars(s: &str) -> Vec<char> {
    s.chars().collect()
}

#[test]
fn char_types() {
    assert_eq!(CharType::of('a'), CharType::Alpha);
    assert_eq!(CharType::of('Z'), CharType::Alpha);
    assert_eq!(CharType::of('7'), CharType::Alpha);
    assert_eq!(CharType::of(' '), CharType::Whitespace);
    assert_eq!(CharType::of('\t'), CharType::Whitespace);
    assert_eq!(CharType::of('"'), CharType::Symbol);
    assert_eq!(CharType::of('é'), CharType::Symbol);
    assert_eq!(CharType::classify('a', true), CharType::Whitespace);
    assert!(CharType::Alpha.is_alpha());
    assert!(CharType::Symbol.is_symbol());
    assert!(CharType::Whitespace.is_whitespace());
    assert_eq!(
        classify_chars(&chars("a ,")),
        vec![CharType::Alpha, CharType::Whitespace, CharType::Symbol]
    );
}

#[test]
fn next_word_scans() {
    assert_eq!(next_word(&chars("abc def")), [0, 4]);
    assert_eq!(next_word(&chars("abc, def")), [0, 3]);
    assert_eq!(next_word(&chars(", def")), [0, 2]);
    assert_eq!(next_word(&chars("   x")), [0, 3]);
    assert_eq!(next_word(&chars("a  b")), [0, 3]);
}

#[test]
fn next_word_runs_off_the_line() {
    assert_eq!(next_word(&chars("")), [1, 0]);
    assert_eq!(next_word(&chars("abc")), [1, 0]);
    assert_eq!(next_word(&chars("abc  ")), [1, 0]);
}

#[test]
fn scan_word_over_classes() {
    let (a, s, w) = (CharType::Alpha, CharType::Symbol, CharType::Whitespace);
    assert_eq!(scan_word(&[a, a, w, s]), Some(3));
    assert_eq!(scan_word(&[a, s]), Some(1));
    assert_eq!(scan_word(&[w, w, a]), Some(2));
    assert_eq!(scan_word(&[a, w]), None);
    assert_eq!(scan_word(&[]), None);
}

#[test]
fn jump_passes_over_the_start() {
    assert_eq!(jump_next_char(&chars("a,b,c"), ','), 1);
    assert_eq!(jump_next_char(&chars(",b,c"), ','), 2);
    assert_eq!(jump_next_char(&chars("abc"), 'x'), 0);
    assert_eq!(jump_next_char(&chars("xbc"), 'x'), 0);
    assert_eq!(jump_next_char(&chars(""), 'x'), 0);
    assert_eq!(find_next_char(&chars("a,b"), ','), Some(1));
    assert_eq!(find_next_char(&chars(",ab"), ','), None);
}
