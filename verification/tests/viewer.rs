use json_viewer::app::{App, CurrentScreen};
use json_viewer::components::log_popup::LogPopup;
use json_viewer::components::query::Query;
use json_viewer::components::render::{render_line, Highlight, StyleTier, StyledSpan};
use json_viewer::components::viewer::{clamp_index, saturate, CommandOutcome, Viewer};
use json_viewer::event::{InputEvent, KeyInput, MouseInput};
use json_viewer::logger::Logger;
use json_viewer::utils::centered_percentages;
use json_viewer::value::parse;
use json_viewer::value::writer::{Element, ElementType};
use json_viewer::vi::vistate::ViCommand;

fn viewer_for(text: &str) -> Viewer {
    let mut v = Viewer::new();
    v.set_value_elemnets(parse(text).unwrap().elemnets());
    v
}

fn key(c: char) -> Option<InputEvent> {
    Some(InputEvent::Key(KeyInput::Char(c)))
}

fn texts(spans: &[StyledSpan]) -> Vec<(&str, StyleTier)> {
    spans.iter().map(|s| (s.text.as_str(), s.tier)).collect()
}

#[test]
fn frame_clamps_the_cursor() {
    // Lines: `[`, 5 items, `]`.
    let mut v = viewer_for("[1,2,3,4,5]");
    assert_eq!(v.line_count(), 7);
    for _ in 0..20 {
        v.process_command(ViCommand::Down);
        v.process_command(ViCommand::Right);
    }
    assert_eq!(v.cursor(), [20, 20]);
    v.draw(3);
    assert_eq!(v.cursor(), [6, 0]);
    assert_eq!(v.scroll(), 4);
    for _ in 0..9 {
        v.process_command(ViCommand::Up);
        v.process_command(ViCommand::Left);
    }
    assert_eq!(v.cursor(), [-3, -9]);
    v.draw(3);
    assert_eq!(v.cursor(), [0, 0]);
    assert_eq!(v.scroll(), 0);
}

#[test]
fn cursor_stays_in_bounds_after_every_command() {
    let mut v = viewer_for("{\"a\": [1,2,3,4,5,6], \"b\": \"some text here\"}");
    let n = v.line_count() as i32;
    let height = 4usize;
    let keys = "jjjjjjjjjjjjkkk$wwwwbbbbbbb0lllllllllllllllllllllhGggf,F\"nfzjjj$jjjjkkkkkkkkkkkkkkkG0";
    for c in keys.chars() {
        v.handle_input(key(c));
        let rows = v.draw(height);
        let [row, col] = v.cursor();
        let scroll = v.scroll();
        assert!(0 <= row && row < n);
        assert!(0 <= col);
        assert!(0 <= scroll && scroll <= row && row < scroll + height as i32);
        assert!(rows.len() <= height);
        let line: String = rows[(row - scroll) as usize]
            .iter()
            .map(|s| s.text.as_str())
            .collect();
        assert!((col as usize) < line.chars().count());
    }
}

#[test]
fn scroll_follows_the_cursor() {
    let mut v = viewer_for("[1,2,3,4,5,6,7,8]");
    assert_eq!(v.line_count(), 10);
    v.process_command(ViCommand::LastLine);
    let rows = v.draw(4);
    assert_eq!(v.cursor(), [9, 0]);
    assert_eq!(v.scroll(), 6);
    assert_eq!(rows.len(), 4);
    assert_eq!(v.scrollbar(4), (6, 6));
    v.process_command(ViCommand::Up);
    v.draw(4);
    assert_eq!(v.scroll(), 6);
    v.process_command(ViCommand::FirstLine);
    v.draw(4);
    assert_eq!(v.scroll(), 0);
    // A window taller than the document shows all of it.
    assert_eq!(v.draw(50).len(), 10);
    assert_eq!(v.scrollbar(50), (0, 0));
}

#[test]
fn empty_viewer_draws_nothing() {
    let mut v = Viewer::new();
    v.process_command(ViCommand::Down);
    v.process_command(ViCommand::MoveWordForward);
    v.process_command(ViCommand::JumpNextChar('x'));
    assert!(v.draw(5).is_empty());
    assert_eq!(v.cursor(), [0, 0]);
    assert_eq!(v.scroll(), 0);
    v.process_command(ViCommand::LastLine);
    v.process_command(ViCommand::LastColumn);
    assert_eq!(v.cursor(), [0, -1]);
}

#[test]
fn first_and_last_column() {
    let mut v = viewer_for("[1,2,3,4,5]");
    v.process_command(ViCommand::Down);
    v.process_command(ViCommand::LastColumn);
    // The line is four spaces, `1` and a comma.
    assert_eq!(v.cursor(), [1, 5]);
    v.process_command(ViCommand::FirstColumn);
    assert_eq!(v.cursor(), [1, 0]);
    v.process_command(ViCommand::LastLine);
    assert_eq!(v.cursor(), [6, 0]);
}

#[test]
fn word_motions_stay_on_the_line() {
    // Line 1 is `    "ab": "cd ef",` and line 2 is `    "x": 1`.
    let mut v = viewer_for("{\"ab\": \"cd ef\", \"x\": 1}");
    v.process_command(ViCommand::Down);
    let mut cols = Vec::new();
    for _ in 0..8 {
        v.process_command(ViCommand::MoveWordForward);
        cols.push(v.cursor()[1]);
    }
    // The last scan runs off the line and leaves the cursor past its end.
    assert_eq!(cols, vec![4, 5, 7, 10, 11, 14, 16, 18]);
    assert_eq!(v.cursor()[0], 1);
    v.draw(10);
    assert_eq!(v.cursor(), [1, 17]);
    let mut back = Vec::new();
    for _ in 0..4 {
        v.process_command(ViCommand::MoveWordBackward);
        back.push(v.cursor()[1]);
    }
    assert_eq!(back, vec![15, 12, 10, 8]);
    v.process_command(ViCommand::FirstColumn);
    v.process_command(ViCommand::MoveWordBackward);
    assert_eq!(v.cursor(), [1, -1]);
}

#[test]
fn jumps_stay_on_the_line() {
    // Line 1 is `    "a": [1,2,3]`.
    let mut v = viewer_for("{\"a\": [1,2,3]}");
    v.process_command(ViCommand::Down);
    v.process_command(ViCommand::JumpNextChar(','));
    assert_eq!(v.cursor(), [1, 11]);
    v.process_command(ViCommand::JumpNextChar(','));
    assert_eq!(v.cursor(), [1, 13]);
    v.process_command(ViCommand::JumpNextChar(','));
    assert_eq!(v.cursor(), [1, 13]);
    v.process_command(ViCommand::JumpPreviousChar(','));
    assert_eq!(v.cursor(), [1, 11]);
    v.process_command(ViCommand::JumpPreviousChar('"'));
    assert_eq!(v.cursor(), [1, 6]);
    v.process_command(ViCommand::JumpPreviousChar('"'));
    assert_eq!(v.cursor(), [1, 4]);
    v.process_command(ViCommand::JumpPreviousChar('"'));
    assert_eq!(v.cursor(), [1, 4]);
    v.process_command(ViCommand::JumpNextChar('}'));
    assert_eq!(v.cursor(), [1, 4]);
}

#[test]
fn next_goes_to_the_first_selection_at_or_after_the_cursor() {
    let mut v = viewer_for("[1,2,3,4,5]");
    v.process_command(ViCommand::Next);
    assert_eq!(v.cursor(), [0, 0]);
    v.add_selection(3, Highlight { col: 4, length: 1 });
    v.add_selection(1, Highlight { col: 5, length: 1 });
    v.add_selection(1, Highlight { col: 2, length: 2 });
    v.add_selection(0, Highlight { col: -1, length: 1 });
    assert_eq!(v.process_command(ViCommand::Next), CommandOutcome::Done);
    assert_eq!(v.cursor(), [1, 2]);
    // The cursor stands on a selection: it stays.
    v.process_command(ViCommand::Next);
    assert_eq!(v.cursor(), [1, 2]);
    v.process_command(ViCommand::Right);
    v.process_command(ViCommand::Next);
    assert_eq!(v.cursor(), [1, 5]);
    v.process_command(ViCommand::Right);
    v.process_command(ViCommand::Next);
    assert_eq!(v.cursor(), [3, 4]);
    v.process_command(ViCommand::Down);
    v.process_command(ViCommand::Next);
    assert_eq!(v.cursor(), [4, 4]);
    v.clear_selections();
    v.process_command(ViCommand::FirstLine);
    v.process_command(ViCommand::Next);
    assert_eq!(v.cursor(), [0, 4]);
}

#[test]
fn previous_is_not_supported() {
    let mut v = viewer_for("[1,2,3,4,5]");
    v.process_command(ViCommand::Down);
    assert_eq!(v.process_command(ViCommand::Previous), CommandOutcome::NotSupported);
    assert_eq!(v.cursor(), [1, 0]);
    assert_eq!(v.handle_input(key('p')), CommandOutcome::NotSupported);
    assert_eq!(v.handle_input(key('n')), CommandOutcome::Done);
}

#[test]
fn mouse_wheel_moves_the_cursor() {
    let mut v = viewer_for("[1,2,3,4,5]");
    v.handle_input(Some(InputEvent::Mouse(MouseInput::ScrollDown)));
    v.handle_input(Some(InputEvent::Mouse(MouseInput::ScrollDown)));
    v.handle_input(Some(InputEvent::Mouse(MouseInput::ScrollRight)));
    assert_eq!(v.cursor(), [2, 1]);
    v.handle_input(Some(InputEvent::Mouse(MouseInput::ScrollUp)));
    v.handle_input(Some(InputEvent::Mouse(MouseInput::ScrollLeft)));
    assert_eq!(v.cursor(), [1, 0]);
    v.handle_input(Some(InputEvent::Mouse(MouseInput::Other)));
    v.handle_input(Some(InputEvent::Key(KeyInput::Other)));
    v.handle_input(Some(InputEvent::Other));
    v.handle_input(None);
    assert_eq!(v.cursor(), [1, 0]);
}

#[test]
fn the_wheel_does_not_touch_pending_keys() {
    let mut v = viewer_for("[1,2,3,4,5]");
    v.handle_input(Some(InputEvent::Mouse(MouseInput::ScrollDown)));
    v.handle_input(key('g'));
    v.handle_input(Some(InputEvent::Mouse(MouseInput::ScrollDown)));
    assert_eq!(v.cursor(), [2, 0]);
    v.handle_input(key('g'));
    assert_eq!(v.cursor(), [0, 0]);
    v.handle_input(Some(InputEvent::Mouse(MouseInput::ScrollDown)));
    v.handle_input(key('g'));
    v.reset_input_state();
    v.handle_input(key('g'));
    assert_eq!(v.cursor(), [1, 0]);
}

#[test]
fn moves_saturate() {
    assert_eq!(saturate(5), 5);
    assert_eq!(saturate(i32::MAX as i128 + 1), i32::MAX);
    assert_eq!(saturate(i32::MIN as i128 - 7), i32::MIN);
    assert_eq!(clamp_index(-4, 10), 0);
    assert_eq!(clamp_index(4, 10), 4);
    assert_eq!(clamp_index(40, 10), 9);
    assert_eq!(clamp_index(40, 0), 0);
}

fn line(parts: &[(ElementType, &str)]) -> Vec<Element> {
    parts
        .iter()
        .map(|(ty, s)| Element { ty: *ty, content: s.to_string() })
        .collect()
}

#[test]
fn a_highlight_cuts_an_element_in_three() {
    let l = line(&[(ElementType::StringLiteral, "\"hello\"")]);
    let spans = render_line(&l, &vec![Highlight { col: 2, length: 3 }]);
    assert_eq!(
        texts(&spans),
        vec![
            ("\"h", StyleTier::Base),
            ("ell", StyleTier::Single),
            ("o\"", StyleTier::Base)
        ]
    );
    assert!(spans.iter().all(|s| s.ty == ElementType::StringLiteral));
}

#[test]
fn spans_never_reach_over_two_elements() {
    let l = line(&[
        (ElementType::Bracket, "["),
        (ElementType::NumberLiteral, "12"),
        (ElementType::Comma, ","),
        (ElementType::NumberLiteral, "345"),
        (ElementType::Bracket, "]"),
    ]);
    let spans = render_line(&l, &vec![Highlight { col: 2, length: 3 }]);
    assert_eq!(
        texts(&spans),
        vec![
            ("[", StyleTier::Base),
            ("1", StyleTier::Base),
            ("2", StyleTier::Single),
            (",", StyleTier::Single),
            ("3", StyleTier::Single),
            ("45", StyleTier::Base),
            ("]", StyleTier::Base),
        ]
    );
    let kinds: Vec<ElementType> = spans.iter().map(|s| s.ty).collect();
    assert_eq!(
        kinds,
        vec![
            ElementType::Bracket,
            ElementType::NumberLiteral,
            ElementType::NumberLiteral,
            ElementType::Comma,
            ElementType::NumberLiteral,
            ElementType::NumberLiteral,
            ElementType::Bracket
        ]
    );
}

#[test]
fn overlapping_highlights_make_a_group() {
    let l = line(&[(ElementType::StringLiteral, "abcdefgh")]);
    let spans = render_line(
        &l,
        &vec![
            Highlight { col: 1, length: 4 },
            Highlight { col: 3, length: 4 },
            Highlight { col: 3, length: 1 },
        ],
    );
    assert_eq!(
        texts(&spans),
        vec![
            ("a", StyleTier::Base),
            ("bc", StyleTier::Single),
            ("d", StyleTier::Group),
            ("e", StyleTier::Group),
            ("fg", StyleTier::Single),
            ("h", StyleTier::Base),
        ]
    );
}

#[test]
fn highlights_outside_the_line_change_nothing() {
    let l = line(&[(ElementType::Key, "\"k\": "), (ElementType::NullLiteral, "null")]);
    let spans = render_line(
        &l,
        &vec![
            Highlight { col: -5, length: 2 },
            Highlight { col: 40, length: 2 },
            Highlight { col: 3, length: 0 },
            Highlight { col: 7, length: -2 },
        ],
    );
    assert_eq!(
        texts(&spans),
        vec![
            ("\"k\"", StyleTier::Base),
            (": ", StyleTier::Base),
            ("nu", StyleTier::Base),
            ("ll", StyleTier::Base)
        ]
    );
    let whole = render_line(&l, &vec![Highlight { col: -5, length: 100 }]);
    assert_eq!(
        texts(&whole),
        vec![("\"k\": ", StyleTier::Single), ("null", StyleTier::Single)]
    );
}

#[test]
fn cuts_fall_between_characters() {
    let l = line(&[(ElementType::StringLiteral, "\"é✓日\"")]);
    let spans = render_line(&l, &vec![Highlight { col: 2, length: 1 }]);
    assert_eq!(
        texts(&spans),
        vec![
            ("\"é", StyleTier::Base),
            ("✓", StyleTier::Single),
            ("日\"", StyleTier::Base)
        ]
    );
}

#[test]
fn an_empty_element_gives_an_empty_span() {
    let l = line(&[
        (ElementType::Whtiespace, ""),
        (ElementType::Bracket, "]"),
    ]);
    let spans = render_line(&l, &vec![Highlight { col: 0, length: 1 }]);
    assert_eq!(
        texts(&spans),
        vec![("", StyleTier::Single), ("]", StyleTier::Single)]
    );
    assert!(render_line(&Vec::new(), &vec![]).is_empty());
}

#[test]
fn the_cursor_is_drawn_as_a_highlight() {
    let mut v = viewer_for("[1,2,3,4,5]");
    v.add_selection(1, Highlight { col: 4, length: 2 });
    v.process_command(ViCommand::Down);
    v.process_command(ViCommand::LastColumn);
    let rows = v.draw(3);
    assert_eq!(rows.len(), 3);
    assert_eq!(texts(&rows[0]), vec![("[", StyleTier::Base)]);
    assert_eq!(
        texts(&rows[1]),
        vec![
            ("    ", StyleTier::Base),
            ("1", StyleTier::Single),
            (",", StyleTier::Group)
        ]
    );
    assert_eq!(
        texts(&rows[2]),
        vec![
            ("    ", StyleTier::Base),
            ("2", StyleTier::Base),
            (",", StyleTier::Base)
        ]
    );
}

#[test]
fn query_line() {
    let mut q = Query::new();
    assert_eq!(q.draw(), "enter query here...");
    assert_eq!(q.get_if_changed(), None);
    q.handle_input(key('a'));
    q.handle_input(key('é'));
    q.handle_input(Some(InputEvent::Key(KeyInput::Tab)));
    q.handle_input(Some(InputEvent::Mouse(MouseInput::ScrollUp)));
    q.handle_input(None);
    assert_eq!(q.draw(), "aé");
    assert_eq!(q.get_if_changed(), Some("aé"));
    assert_eq!(q.get_if_changed(), None);
    q.handle_input(Some(InputEvent::Key(KeyInput::Backspace)));
    assert_eq!(q.get_if_changed(), Some("a"));
    q.handle_input(Some(InputEvent::Key(KeyInput::Backspace)));
    assert_eq!(q.get_if_changed(), Some(""));
    q.handle_input(Some(InputEvent::Key(KeyInput::Backspace)));
    assert_eq!(q.get_if_changed(), None);
    q.reset_input_state();
    assert_eq!(q.draw(), "enter query here...");
}

#[test]
fn log_is_shown_newest_first() {
    let mut logger = Logger::new();
    let popup = LogPopup::new();
    assert_eq!(popup.draw(&logger), "");
    logger.log("one");
    assert_eq!(popup.draw(&logger), "one");
    logger.log("two");
    logger.log("three");
    assert_eq!(logger.get_all_logs(), vec!["one", "two", "three"]);
    assert_eq!(popup.draw(&logger), "three\ntwo\none");
}

#[test]
fn end_to_end() {
    let mut app = App::new("{\"a\": [1,2,3]}".to_string()).unwrap();
    assert!(!app.done());
    // The query pane has the keyboard first; the tab key hands it on.
    app.handle_event(Some(InputEvent::Key(KeyInput::Tab)));
    for c in "lljk$0".chars() {
        assert_eq!(app.handle_event(key(c)), CommandOutcome::Done);
        let screen = app.draw(20);
        assert_eq!(screen.viewer.len(), 3);
        assert!(screen.viewer_active);
        assert!(!screen.query_active);
    }
    assert!(!app.done());
    app.handle_event(None);
    app.handle_event(key('q'));
    assert!(app.done());
}

#[test]
fn keys_go_to_the_pane_that_has_the_keyboard() {
    let mut app = App::new("[1,2,3,4,5]".to_string()).unwrap();
    for c in "lljk$0".chars() {
        app.handle_event(key(c));
    }
    let screen = app.draw(3);
    assert_eq!(screen.query, "lljk$0");
    assert!(screen.query_active);
    assert_eq!(screen.logs, None);
    assert_eq!(screen.scroll, 0);
    assert_eq!(screen.hidden_rows, 4);
    assert_eq!(texts(&screen.viewer[0]), vec![("[", StyleTier::Single)]);
    // The changed query was noted in the log, once; the key that shows the
    // log changes the query again.
    app.handle_event(key('I'));
    assert_eq!(
        app.draw(3).logs,
        Some("recalculate_query\nrecalculate_query".to_string())
    );
    assert_eq!(
        app.draw(3).logs,
        Some("recalculate_query\nrecalculate_query".to_string())
    );
    app.handle_event(Some(InputEvent::Key(KeyInput::Tab)));
    assert_eq!(app.handle_event(key('p')), CommandOutcome::NotSupported);
    app.handle_event(key('I'));
    let screen = app.draw(3);
    assert_eq!(screen.logs, None);
    assert_eq!(screen.query, "lljk$0I");
}

#[test]
fn a_broken_document_does_not_start() {
    assert!(App::new("{\"a\": [1,2,3}".to_string()).is_err());
}

#[test]
fn screens() {
    assert_eq!(CurrentScreen::Viewer.toggle(), CurrentScreen::Query);
    assert_eq!(CurrentScreen::Query.toggle(), CurrentScreen::Viewer);
    assert!(CurrentScreen::Viewer.is_viewer());
    assert!(CurrentScreen::Query.is_query());
    assert!(!CurrentScreen::Query.is_viewer());
}

#[test]
fn centered_window_shares() {
    assert_eq!(centered_percentages(60), [20, 60, 20]);
    assert_eq!(centered_percentages(25), [37, 25, 37]);
    assert_eq!(centered_percentages(100), [0, 100, 0]);
    assert_eq!(centered_percentages(0), [50, 0, 50]);
}
