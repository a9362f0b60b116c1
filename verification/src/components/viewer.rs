//! The document viewer: the lines of the document, a cursor that commands
//! move freely and every frame brings back into the document, a scroll
//! offset that follows the cursor, and the highlights.

use super::render::{render_line, render_line_spec, spans_view, Highlight, StyledSpan};
use crate::event::{InputEvent, KeyInput, MouseInput};
use crate::value::writer::{line_chars, line_text, lines_view, Element, ElementView};
use crate::vi::vimotions::{
    char_types, classify_chars, find_next_char, jump_distance, scan_word, word_distance,
};
use crate::vi::vistate::{step_command, step_pending, ViCommand, ViState};
use vstd::prelude::*;

verus! {

/// A highlight on a row.
#[derive(Debug, Clone, Copy, PartialEq, Eq, Structural)]
pub struct Selection {
    pub row: i32,
    pub highlight: Highlight,
}

/// What became of a command.
#[derive(Debug, Clone, Copy, PartialEq, Eq, Structural)]
pub enum CommandOutcome {
    /// The command was carried out.
    Done,
    /// The command is known but not supported; nothing was changed.
    NotSupported,
}

/// The viewer as plain values.
pub struct ViewerView {
    pub scroll: i32,
    pub row: i32,
    pub col: i32,
    pub lines: Seq<Seq<ElementView>>,
    /// The keys that are pending in the input engine.
    pub pending: Seq<char>,
    pub selections: Seq<Selection>,
}

/// `x` brought into the range of `i32`.
pub open spec fn sat_i32(x: int) -> i32 {
    if x < i32::MIN {
        i32::MIN
    } else if x > i32::MAX {
        i32::MAX
    } else {
        x as i32
    }
}

/// `x` brought into `0..n`, and 0 where that range is empty.
pub open spec fn clamp(x: int, n: int) -> int {
    if x < 0 || n <= 0 {
        0
    } else if x >= n {
        n - 1
    } else {
        x
    }
}

/// The row that the cursor stands for.
pub open spec fn clamped_row(v: ViewerView) -> int {
    clamp(v.row as int, v.lines.len() as int)
}

/// The characters of the line that the cursor stands for; none where the
/// document has no line.
pub open spec fn current_chars(v: ViewerView) -> Seq<char> {
    if v.lines.len() == 0 {
        Seq::empty()
    } else {
        line_text(v.lines[clamped_row(v)])
    }
}

/// The column that the cursor stands for.
pub open spec fn clamped_col(v: ViewerView) -> int {
    clamp(v.col as int, current_chars(v).len() as int)
}

/// `v` with the cursor at `row` and `col`, as far as `i32` reaches.
pub open spec fn moved(v: ViewerView, row: int, col: int) -> ViewerView {
    ViewerView { row: sat_i32(row), col: sat_i32(col), ..v }
}

/// The scroll offset that follows the cursor row `row`: it snaps up to the
/// row where the row is above the window, moves down just far enough where
/// the row is below it, and stays within the document.
pub open spec fn follow_scroll(scroll: int, row: int, height: int, n: int) -> int {
    let up = if row < scroll {
        row
    } else {
        scroll
    };
    let down = if up + height <= row {
        row - height + 1
    } else {
        up
    };
    clamp(down, n)
}

/// `v` as a frame shows it: the cursor brought into the document, the scroll
/// offset following it.
pub open spec fn framed(v: ViewerView, height: int) -> ViewerView {
    let row = clamped_row(v);
    let col = clamped_col(v);
    ViewerView {
        row: row as i32,
        col: col as i32,
        scroll: follow_scroll(v.scroll as int, row, height, v.lines.len() as int) as i32,
        ..v
    }
}

/// The row after the last visible one.
pub open spec fn visible_end(v: ViewerView, height: int) -> int {
    if v.scroll + height < v.lines.len() {
        v.scroll + height
    } else {
        v.lines.len() as int
    }
}

/// The highlights of `selections` that stand on `row`, in their order.
pub open spec fn row_highlights(selections: Seq<Selection>, row: int) -> Seq<Highlight>
    decreases selections.len(),
{
    if selections.len() == 0 {
        Seq::empty()
    } else if selections.last().row == row {
        row_highlights(selections.drop_last(), row).push(selections.last().highlight)
    } else {
        row_highlights(selections.drop_last(), row)
    }
}

/// The highlight that shows the cursor.
pub open spec fn cursor_highlight(col: i32) -> Highlight {
    Highlight { col, length: 1 }
}

/// The highlights under which `row` is drawn: its selections and, on the
/// cursor's row, the cursor.
pub open spec fn frame_highlights(v: ViewerView, row: int) -> Seq<Highlight> {
    if row == v.row {
        row_highlights(v.selections, row).push(cursor_highlight(v.col))
    } else {
        row_highlights(v.selections, row)
    }
}

/// Whether the selection `s` lies at or after the place `row`, `col`.
pub open spec fn at_or_after(s: Selection, row: int, col: int) -> bool {
    s.row > row || (s.row == row && s.highlight.col >= col)
}

/// Whether `a` starts before `b`, by row and then by column.
pub open spec fn starts_before(a: Selection, b: Selection) -> bool {
    a.row < b.row || (a.row == b.row && a.highlight.col < b.highlight.col)
}

/// Among the first `n` selections, the index of the one that starts first of
/// those at or after `row`, `col`; of several that start at the same place,
/// the earliest.
pub open spec fn next_selection(selections: Seq<Selection>, row: int, col: int, n: int) -> Option<
    int,
>
    decreases n,
{
    if n <= 0 || n > selections.len() {
        None
    } else {
        let before = next_selection(selections, row, col, n - 1);
        let s = selections[n - 1];
        if at_or_after(s, row, col) && (before is None || starts_before(
            s,
            selections[before->0],
        )) {
            Some(n - 1)
        } else {
            before
        }
    }
}

/// What `next_selection` finds: nothing exactly where no selection lies at
/// or after the place; else a selection at or after the place before which
/// none of those starts, and which is the earliest of those that start where
/// it starts.
pub proof fn lemma_next_selection(selections: Seq<Selection>, row: int, col: int, n: int)
    requires
        0 <= n <= selections.len(),
    ensures
        match next_selection(selections, row, col, n) {
            None => forall|j: int| 0 <= j < n ==> !at_or_after(#[trigger] selections[j], row, col),
            Some(i) => {
                &&& 0 <= i < n
                &&& at_or_after(selections[i], row, col)
                &&& forall|j: int|
                    0 <= j < n && at_or_after(#[trigger] selections[j], row, col) ==> !starts_before(
                        selections[j],
                        selections[i],
                    )
                &&& forall|j: int|
                    0 <= j < i && at_or_after(#[trigger] selections[j], row, col) ==> starts_before(
                        selections[i],
                        selections[j],
                    )
            },
        },
    decreases n,
{
    if n > 0 {
        lemma_next_selection(selections, row, col, n - 1);
    }
}

/// The word motion forward: from the cursor to the start of the next word of
/// its line, or past the end of the line where no word follows.
pub open spec fn word_forward(v: ViewerView) -> ViewerView {
    let chars = current_chars(v);
    let c = clamped_col(v);
    moved(
        v,
        clamped_row(v),
        c + word_distance(char_types(chars.subrange(c, chars.len() as int))),
    )
}

/// The part of the line up to and including column `c`, backwards.
pub open spec fn backwards(chars: Seq<char>, c: int) -> Seq<char> {
    if chars.len() == 0 {
        Seq::empty()
    } else {
        chars.subrange(0, c + 1).reverse()
    }
}

/// The word motion backward: the same scan over the line up to the cursor,
/// read backwards.
pub open spec fn word_backward(v: ViewerView) -> ViewerView {
    let c = clamped_col(v);
    moved(v, clamped_row(v), c - word_distance(char_types(backwards(current_chars(v), c))))
}

/// The jump to the next `ch` on the line, passing over the cursor's own
/// place; the cursor stays where `ch` does not occur again.
pub open spec fn jump_forward(v: ViewerView, ch: char) -> ViewerView {
    let chars = current_chars(v);
    let c = clamped_col(v);
    moved(v, clamped_row(v), c + jump_distance(chars.subrange(c, chars.len() as int), ch))
}

/// The jump to the previous `ch` on the line.
pub open spec fn jump_backward(v: ViewerView, ch: char) -> ViewerView {
    let c = clamped_col(v);
    moved(v, clamped_row(v), c - jump_distance(backwards(current_chars(v), c), ch))
}

/// The move to the next selection at or after the cursor, if there is one.
pub open spec fn to_next_selection(v: ViewerView) -> ViewerView {
    match next_selection(v.selections, v.row as int, v.col as int, v.selections.len() as int) {
        Some(i) => moved(v, v.selections[i].row as int, v.selections[i].highlight.col as int),
        None => v,
    }
}

/// The viewer after `command`.
pub open spec fn apply_command(v: ViewerView, command: ViCommand) -> ViewerView {
    match command {
        ViCommand::Up => moved(v, v.row - 1, v.col as int),
        ViCommand::Down => moved(v, v.row + 1, v.col as int),
        ViCommand::Left => moved(v, v.row as int, v.col - 1),
        ViCommand::Right => moved(v, v.row as int, v.col + 1),
        ViCommand::MoveWordForward => word_forward(v),
        ViCommand::MoveWordBackward => word_backward(v),
        ViCommand::JumpNextChar(ch) => jump_forward(v, ch),
        ViCommand::JumpPreviousChar(ch) => jump_backward(v, ch),
        ViCommand::FirstLine => moved(v, 0, v.col as int),
        ViCommand::LastLine => moved(v, v.lines.len() - 1, v.col as int),
        ViCommand::FirstColumn => moved(v, v.row as int, 0),
        ViCommand::LastColumn => moved(v, clamped_row(v), current_chars(v).len() - 1),
        ViCommand::Next => to_next_selection(v),
        ViCommand::Previous => v,
    }
}

/// What becomes of `command`.
pub open spec fn command_outcome(command: ViCommand) -> CommandOutcome {
    if command is Previous {
        CommandOutcome::NotSupported
    } else {
        CommandOutcome::Done
    }
}

/// The command that an event gives, with `pending` the keys that the input
/// engine holds: a character key goes through the engine, the mouse wheel
/// moves the cursor directly.
pub open spec fn event_command(pending: Seq<char>, event: Option<InputEvent>) -> Option<ViCommand> {
    match event {
        Some(InputEvent::Key(KeyInput::Char(c))) => step_command(pending.push(c)),
        Some(InputEvent::Mouse(MouseInput::ScrollUp)) => Some(ViCommand::Up),
        Some(InputEvent::Mouse(MouseInput::ScrollDown)) => Some(ViCommand::Down),
        Some(InputEvent::Mouse(MouseInput::ScrollLeft)) => Some(ViCommand::Left),
        Some(InputEvent::Mouse(MouseInput::ScrollRight)) => Some(ViCommand::Right),
        _ => None,
    }
}

/// The keys that the input engine holds after an event.
pub open spec fn event_pending(pending: Seq<char>, event: Option<InputEvent>) -> Seq<char> {
    match event {
        Some(InputEvent::Key(KeyInput::Char(c))) => step_pending(pending.push(c)),
        _ => pending,
    }
}

/// The viewer after an event.
pub open spec fn after_event(v: ViewerView, event: Option<InputEvent>) -> ViewerView {
    let heard = ViewerView { pending: event_pending(v.pending, event), ..v };
    match event_command(v.pending, event) {
        Some(command) => apply_command(heard, command),
        None => heard,
    }
}

/// What becomes of an event.
pub open spec fn event_outcome(pending: Seq<char>, event: Option<InputEvent>) -> CommandOutcome {
    match event_command(pending, event) {
        Some(command) => command_outcome(command),
        None => CommandOutcome::Done,
    }
}

/// Whether the cursor stands in the document and the window holds its row.
pub open spec fn in_bounds(v: ViewerView, height: int) -> bool {
    let n = v.lines.len() as int;
    let len = current_chars(v).len() as int;
    if n == 0 {
        v.row == 0 && v.col == 0 && v.scroll == 0
    } else {
        &&& 0 <= v.row < n
        &&& if len == 0 {
            v.col == 0
        } else {
            0 <= v.col < len
        }
        &&& 0 <= v.scroll <= v.row < v.scroll + height
        &&& v.scroll < n
    }
}

/// A frame brings the cursor into the document and the cursor's row into the
/// window, wherever the commands before it have left them.
pub proof fn lemma_frame_in_bounds(v: ViewerView, height: int)
    requires
        height >= 1,
    ensures
        in_bounds(framed(v, height), height),
        framed(v, height).lines == v.lines,
        framed(v, height).selections == v.selections,
        framed(v, height).pending == v.pending,
{
    let f = framed(v, height);
    let n = v.lines.len() as int;
    let row = clamped_row(v);
    assert(row <= i32::MAX);
    if n > 0 {
        assert(f.row == row);
        assert(clamped_row(f) == row);
        assert(current_chars(f) == current_chars(v));
    }
}

/// The viewer after each of `commands` in turn, with a frame after each.
pub open spec fn after_commands(v: ViewerView, commands: Seq<ViCommand>, height: int) -> ViewerView
    decreases commands.len(),
{
    if commands.len() == 0 {
        v
    } else {
        framed(
            apply_command(after_commands(v, commands.drop_last(), height), commands.last()),
            height,
        )
    }
}

/// No command changes the document.
pub proof fn lemma_command_keeps_lines(v: ViewerView, command: ViCommand)
    ensures
        apply_command(v, command).lines == v.lines,
{
}

/// After any sequence of commands, each followed by a frame, the cursor
/// stands in the document and the window holds its row.
pub proof fn lemma_navigation_in_bounds(v: ViewerView, commands: Seq<ViCommand>, height: int)
    requires
        height >= 1,
        commands.len() > 0,
    ensures
        in_bounds(after_commands(v, commands, height), height),
        after_commands(v, commands, height).lines == v.lines,
    decreases commands.len(),
{
    let before = after_commands(v, commands.drop_last(), height);
    if commands.len() > 1 {
        lemma_navigation_in_bounds(v, commands.drop_last(), height);
    }
    assert(before.lines == v.lines);
    lemma_command_keeps_lines(before, commands.last());
    lemma_frame_in_bounds(apply_command(before, commands.last()), height);
}

/// `x` brought into the range of `i32`.
pub fn saturate(x: i128) -> (r: i32)
    ensures
        r == sat_i32(x as int),
{
    if x < i32::MIN as i128 {
        i32::MIN
    } else if x > i32::MAX as i128 {
        i32::MAX
    } else {
        x as i32
    }
}

/// `x` brought into `0..n`, and 0 where that range is empty.
pub fn clamp_index(x: i32, n: usize) -> (r: usize)
    ensures
        r == clamp(x as int, n as int),
        r <= i32::MAX,
        n > 0 ==> r < n,
{
    if x < 0 || n == 0 {
        0
    } else if x as usize >= n {
        n - 1
    } else {
        x as usize
    }
}

/// The characters `line[from..]`.
pub fn chars_from(line: &Vec<char>, from: usize) -> (r: Vec<char>)
    requires
        from <= line.len(),
    ensures
        r@ == line@.subrange(from as int, line.len() as int),
{
    let mut r: Vec<char> = Vec::new();
    let mut i: usize = from;
    while i < line.len()
        invariant
            from <= i <= line.len(),
            r@ == line@.subrange(from as int, i as int),
        decreases line.len() - i,
    {
        r.push(line[i]);
        i += 1;
        assert(r@ =~= line@.subrange(from as int, i as int));
    }
    r
}

/// The characters `line[..=upto]`, backwards; none where the line is empty.
pub fn chars_backwards(line: &Vec<char>, upto: usize) -> (r: Vec<char>)
    requires
        line.len() > 0 ==> upto < line.len(),
    ensures
        r@ == backwards(line@, upto as int),
{
    let mut r: Vec<char> = Vec::new();
    if line.len() == 0 {
        return r;
    }
    let ghost want = line@.subrange(0, upto + 1).reverse();
    let mut i: usize = upto + 1;
    while i > 0
        invariant
            i <= upto + 1,
            upto < line.len(),
            want == line@.subrange(0, upto + 1).reverse(),
            r.len() == upto + 1 - i,
            forall|j: int| 0 <= j < r.len() ==> r@[j] == want[j],
        decreases i,
    {
        i -= 1;
        r.push(line[i]);
    }
    assert(r@ =~= want);
    r
}

/// The document viewer.
pub struct Viewer {
    scroll: i32,
    row: i32,
    col: i32,
    lines: Vec<Vec<Element>>,
    vistate: ViState,
    selections: Vec<Selection>,
}

impl View for Viewer {
    type V = ViewerView;

    closed spec fn view(&self) -> ViewerView {
        ViewerView {
            scroll: self.scroll,
            row: self.row,
            col: self.col,
            lines: lines_view(self.lines),
            pending: self.vistate@,
            selections: self.selections@,
        }
    }
}

impl Viewer {
    /// A viewer without a document, the cursor at the origin.
    pub fn new() -> (r: Self)
        ensures
            r@ == (ViewerView {
                scroll: 0,
                row: 0,
                col: 0,
                lines: Seq::empty(),
                pending: Seq::empty(),
                selections: Seq::empty(),
            }),
    {
        let r = Self {
            scroll: 0,
            row: 0,
            col: 0,
            lines: Vec::new(),
            vistate: ViState::new(),
            selections: Vec::new(),
        };
        assert(lines_view(r.lines) =~= Seq::<Seq<ElementView>>::empty());
        r
    }

    /// Shows these lines.
    pub fn set_value_elemnets(&mut self, value_elements: Vec<Vec<Element>>)
        ensures
            final(self)@ == (ViewerView { lines: lines_view(value_elements), ..old(self)@ }),
    {
        self.lines = value_elements;
    }

    /// Forgets the keys that are pending.
    pub fn reset_input_state(&mut self)
        ensures
            final(self)@ == (ViewerView { pending: Seq::empty(), ..old(self)@ }),
    {
        self.vistate.reset();
    }

    /// Adds a highlight on a row.
    pub fn add_selection(&mut self, row: i32, highlight: Highlight)
        ensures
            final(self)@ == (ViewerView {
                selections: old(self)@.selections.push(Selection { row, highlight }),
                ..old(self)@
            }),
    {
        self.selections.push(Selection { row, highlight });
    }

    /// Removes all highlights.
    pub fn clear_selections(&mut self)
        ensures
            final(self)@ == (ViewerView { selections: Seq::empty(), ..old(self)@ }),
    {
        self.selections = Vec::new();
    }

    /// The cursor: row and column.
    pub fn cursor(&self) -> (r: [i32; 2])
        ensures
            r[0] == self@.row,
            r[1] == self@.col,
    {
        [self.row, self.col]
    }

    /// The first row that is shown.
    pub fn scroll(&self) -> (r: i32)
        ensures
            r == self@.scroll,
    {
        self.scroll
    }

    /// The number of lines of the document.
    pub fn line_count(&self) -> (r: usize)
        ensures
            r == self@.lines.len(),
    {
        self.lines.len()
    }

    /// What the scroll bar shows: the scroll offset, and the number of rows
    /// that do not fit the window.
    pub fn scrollbar(&self, viewport_height: usize) -> (r: (i32, usize))
        ensures
            r.0 == self@.scroll,
            r.1 == (if self@.lines.len() > viewport_height {
                self@.lines.len() - viewport_height
            } else {
                0
            }),
    {
        let n = self.lines.len();
        (self.scroll, if n > viewport_height {
            n - viewport_height
        } else {
            0
        })
    }

    fn current_line_char_vec(&self) -> (r: Vec<char>)
        ensures
            r@ == current_chars(self@),
    {
        if self.lines.len() == 0 {
            Vec::new()
        } else {
            let row = clamp_index(self.row, self.lines.len());
            line_chars(&self.lines[row])
        }
    }

    fn move_curosr(&mut self, d_row: i32, d_col: i32)
        ensures
            final(self)@ == moved(old(self)@, old(self)@.row + d_row, old(self)@.col + d_col),
    {
        self.row = saturate(self.row as i128 + d_row as i128);
        self.col = saturate(self.col as i128 + d_col as i128);
    }

    fn forward_word(&mut self)
        ensures
            final(self)@ == word_forward(old(self)@),
    {
        let line = self.current_line_char_vec();
        let row = clamp_index(self.row, self.lines.len());
        let c = clamp_index(self.col, line.len());
        let rest = chars_from(&line, c);
        let classes = classify_chars(rest.as_slice());
        let d = match scan_word(classes.as_slice()) {
            Some(d) => d,
            None => classes.len(),
        };
        self.row = row as i32;
        self.col = saturate(c as i128 + d as i128);
    }

    fn backward_word(&mut self)
        ensures
            final(self)@ == word_backward(old(self)@),
    {
        let line = self.current_line_char_vec();
        let row = clamp_index(self.row, self.lines.len());
        let c = clamp_index(self.col, line.len());
        let rest = chars_backwards(&line, c);
        let classes = classify_chars(rest.as_slice());
        let d = match scan_word(classes.as_slice()) {
            Some(d) => d,
            None => classes.len(),
        };
        self.row = row as i32;
        self.col = saturate(c as i128 - d as i128);
    }

    fn jump_next_char(&mut self, ch: char)
        ensures
            final(self)@ == jump_forward(old(self)@, ch),
    {
        let line = self.current_line_char_vec();
        let row = clamp_index(self.row, self.lines.len());
        let c = clamp_index(self.col, line.len());
        let rest = chars_from(&line, c);
        let d = match find_next_char(rest.as_slice(), ch) {
            Some(d) => d,
            None => 0,
        };
        self.row = row as i32;
        self.col = saturate(c as i128 + d as i128);
    }

    fn jump_prev_char(&mut self, ch: char)
        ensures
            final(self)@ == jump_backward(old(self)@, ch),
    {
        let line = self.current_line_char_vec();
        let row = clamp_index(self.row, self.lines.len());
        let c = clamp_index(self.col, line.len());
        let rest = chars_backwards(&line, c);
        let d = match find_next_char(rest.as_slice(), ch) {
            Some(d) => d,
            None => 0,
        };
        self.row = row as i32;
        self.col = saturate(c as i128 - d as i128);
    }

    fn first_line(&mut self)
        ensures
            final(self)@ == moved(old(self)@, 0, old(self)@.col as int),
    {
        self.row = 0;
    }

    fn last_line(&mut self)
        ensures
            final(self)@ == moved(old(self)@, old(self)@.lines.len() - 1, old(self)@.col as int),
    {
        self.row = saturate(self.lines.len() as i128 - 1);
    }

    fn first_column(&mut self)
        ensures
            final(self)@ == moved(old(self)@, old(self)@.row as int, 0),
    {
        self.col = 0;
    }

    fn last_column(&mut self)
        ensures
            final(self)@ == moved(
                old(self)@,
                clamped_row(old(self)@),
                current_chars(old(self)@).len() - 1,
            ),
    {
        let line = self.current_line_char_vec();
        let row = clamp_index(self.row, self.lines.len());
        self.row = row as i32;
        self.col = saturate(line.len() as i128 - 1);
    }

    fn next(&mut self)
        ensures
            final(self)@ == to_next_selection(old(self)@),
    {
        let mut best: Option<usize> = None;
        let mut i: usize = 0;
        while i < self.selections.len()
            invariant
                i <= self.selections.len(),
                self@ == old(self)@,
                match best {
                    Some(b) => b < i && next_selection(
                        self@.selections,
                        self@.row as int,
                        self@.col as int,
                        i as int,
                    ) == Some(b as int),
                    None => next_selection(
                        self@.selections,
                        self@.row as int,
                        self@.col as int,
                        i as int,
                    ) is None,
                },
            decreases self.selections.len() - i,
        {
            let s = self.selections[i];
            if s.row > self.row || (s.row == self.row && s.highlight.col >= self.col) {
                match best {
                    None => {
                        best = Some(i);
                    },
                    Some(b) => {
                        let t = self.selections[b];
                        if s.row < t.row || (s.row == t.row && s.highlight.col < t.highlight.col) {
                            best = Some(i);
                        }
                    },
                }
            }
            i += 1;
        }
        match best {
            Some(b) => {
                let s = self.selections[b];
                self.row = s.row;
                self.col = s.highlight.col;
            },
            None => {},
        }
    }

    /// The highlights under which `row` is drawn.
    fn highlights_on(&self, row: usize) -> (r: Vec<Highlight>)
        ensures
            r@ == frame_highlights(self@, row as int),
    {
        let mut r: Vec<Highlight> = Vec::new();
        let mut i: usize = 0;
        assert(self.selections@.take(0) =~= Seq::<Selection>::empty());
        while i < self.selections.len()
            invariant
                i <= self.selections.len(),
                r@ == row_highlights(self.selections@.take(i as int), row as int),
            decreases self.selections.len() - i,
        {
            let s = self.selections[i];
            proof {
                assert(self.selections@.take(i + 1).drop_last() =~= self.selections@.take(i as int));
                assert(self.selections@.take(i + 1).last() == s);
            }
            if s.row as i128 == row as i128 {
                r.push(s.highlight);
            }
            i += 1;
        }
        assert(self.selections@.take(self.selections.len() as int) =~= self.selections@);
        if self.row as i128 == row as i128 {
            r.push(Highlight { col: self.col, length: 1 });
        }
        r
    }

    /// Brings the cursor into the document: the row into the rows of the
    /// document, the column into the columns of that row.
    pub fn clamp_cursor(&mut self)
        ensures
            final(self)@ == moved(old(self)@, clamped_row(old(self)@), clamped_col(old(self)@)),
            final(self)@.row == clamped_row(old(self)@),
            final(self)@.col == clamped_col(old(self)@),
    {
        let line = self.current_line_char_vec();
        let row = clamp_index(self.row, self.lines.len());
        let col = clamp_index(self.col, line.len());
        self.row = row as i32;
        self.col = col as i32;
    }

    /// Lets the scroll offset follow the cursor's row.
    fn follow_cursor(&mut self, viewport_height: usize)
        requires
            viewport_height >= 1,
            0 <= old(self)@.row,
        ensures
            final(self)@ == (ViewerView {
                scroll: follow_scroll(
                    old(self)@.scroll as int,
                    old(self)@.row as int,
                    viewport_height as int,
                    old(self)@.lines.len() as int,
                ) as i32,
                ..old(self)@
            }),
            follow_scroll(
                old(self)@.scroll as int,
                old(self)@.row as int,
                viewport_height as int,
                old(self)@.lines.len() as int,
            ) == final(self)@.scroll,
    {
        let up: i32 = if self.row < self.scroll {
            self.row
        } else {
            self.scroll
        };
        let down: i128 = if up as i128 + viewport_height as i128 <= self.row as i128 {
            self.row as i128 - viewport_height as i128 + 1
        } else {
            up as i128
        };
        let scroll = clamp_index(saturate(down), self.lines.len());
        self.scroll = scroll as i32;
    }

    /// Prepares a frame for a window of `viewport_height` rows and returns
    /// the spans of the visible rows.
    ///
    /// The cursor is brought into the document, the scroll offset follows the
    /// cursor's row, and each visible row is composed with its selections
    /// and, on the cursor's row, with the cursor.
    pub fn draw(&mut self, viewport_height: usize) -> (r: Vec<Vec<StyledSpan>>)
        requires
            viewport_height >= 1,
        ensures
            final(self)@ == framed(old(self)@, viewport_height as int),
            in_bounds(final(self)@, viewport_height as int),
            r.len() == visible_end(final(self)@, viewport_height as int) - final(self)@.scroll,
            forall|i: int|
                0 <= i < r.len() ==> spans_view(#[trigger] r[i]) == render_line_spec(
                    final(self)@.lines[final(self)@.scroll + i],
                    frame_highlights(final(self)@, final(self)@.scroll + i),
                ),
    {
        proof {
            lemma_frame_in_bounds(self@, viewport_height as int);
        }
        self.clamp_cursor();
        self.follow_cursor(viewport_height);
        let n = self.lines.len();
        let start = self.scroll as usize;
        let end: usize = if n - start > viewport_height {
            start + viewport_height
        } else {
            n
        };
        let mut rows: Vec<Vec<StyledSpan>> = Vec::new();
        let mut row: usize = start;
        while row < end
            invariant
                start <= row <= end <= self.lines.len(),
                start == self@.scroll,
                rows.len() == row - start,
                forall|i: int|
                    0 <= i < rows.len() ==> spans_view(#[trigger] rows[i]) == render_line_spec(
                        self@.lines[start + i],
                        frame_highlights(self@, start + i),
                    ),
            decreases end - row,
        {
            let highlights = self.highlights_on(row);
            let line = render_line(&self.lines[row], &highlights);
            rows.push(line);
            row += 1;
        }
        rows
    }

    /// Carries out a command.
    ///
    /// The four directions add or take one, as far as `i32` reaches, and do
    /// not look at the document. The motions that read the line bring the
    /// cursor into the document first and stay on its line. No command but a
    /// frame changes the scroll offset. `Previous` is not supported and
    /// changes nothing.
    pub fn process_command(&mut self, command: ViCommand) -> (r: CommandOutcome)
        ensures
            final(self)@ == apply_command(old(self)@, command),
            r == command_outcome(command),
    {
        match command {
            ViCommand::Up => self.move_curosr(-1, 0),
            ViCommand::Down => self.move_curosr(1, 0),
            ViCommand::Left => self.move_curosr(0, -1),
            ViCommand::Right => self.move_curosr(0, 1),
            ViCommand::MoveWordForward => self.forward_word(),
            ViCommand::MoveWordBackward => self.backward_word(),
            ViCommand::JumpNextChar(c) => self.jump_next_char(c),
            ViCommand::JumpPreviousChar(c) => self.jump_prev_char(c),
            ViCommand::FirstLine => self.first_line(),
            ViCommand::LastLine => self.last_line(),
            ViCommand::FirstColumn => self.first_column(),
            ViCommand::LastColumn => self.last_column(),
            ViCommand::Next => self.next(),
            ViCommand::Previous => {
                return CommandOutcome::NotSupported;
            },
        }
        CommandOutcome::Done
    }

    /// Takes an input event.
    pub fn handle_input(&mut self, event: Option<InputEvent>) -> (r: CommandOutcome)
        ensures
            final(self)@ == after_event(old(self)@, event),
            r == event_outcome(old(self)@.pending, event),
    {
        match event {
            Some(InputEvent::Key(KeyInput::Char(c))) => {
                match self.vistate.process(c) {
                    Some(command) => self.process_command(command),
                    None => CommandOutcome::Done,
                }
            },
            Some(InputEvent::Mouse(MouseInput::ScrollUp)) => self.process_command(ViCommand::Up),
            Some(InputEvent::Mouse(MouseInput::ScrollDown)) => self.process_command(
                ViCommand::Down,
            ),
            Some(InputEvent::Mouse(MouseInput::ScrollLeft)) => self.process_command(
                ViCommand::Left,
            ),
            Some(InputEvent::Mouse(MouseInput::ScrollRight)) => self.process_command(
                ViCommand::Right,
            ),
            _ => CommandOutcome::Done,
        }
    }
}

} // verus!
