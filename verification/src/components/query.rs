//! The query line: a text that keys extend and the backspace key shortens.

use crate::event::{InputEvent, KeyInput};
use vstd::prelude::*;

verus! {

/// The query line.
pub struct Query {
    query: String,
    query_changed: bool,
}

/// The query line as plain values.
pub struct QueryView {
    pub text: Seq<char>,
    /// Whether the text has changed since it was last asked for.
    pub changed: bool,
}

impl View for Query {
    type V = QueryView;

    closed spec fn view(&self) -> QueryView {
        QueryView { text: self.query@, changed: self.query_changed }
    }
}

/// What the query line shows while it is empty.
pub open spec fn placeholder() -> Seq<char> {
    "enter query here..."@
}

/// The query line after a character was typed.
pub open spec fn typed(q: QueryView, c: char) -> QueryView {
    QueryView { text: q.text.push(c), changed: true }
}

/// The query line after its last character was deleted; an empty one stays
/// as it is.
pub open spec fn deleted(q: QueryView) -> QueryView {
    if q.text.len() == 0 {
        q
    } else {
        QueryView { text: q.text.drop_last(), changed: true }
    }
}

/// The query line after an event.
pub open spec fn query_after_event(q: QueryView, event: Option<InputEvent>) -> QueryView {
    match event {
        Some(InputEvent::Key(KeyInput::Char(c))) => typed(q, c),
        Some(InputEvent::Key(KeyInput::Backspace)) => deleted(q),
        _ => q,
    }
}

impl Query {
    /// An empty query line.
    pub fn new() -> (r: Self)
        ensures
            r@ == (QueryView { text: Seq::empty(), changed: false }),
    {
        Self { query: String::new(), query_changed: false }
    }

    /// The text, if it has changed since it was last asked for.
    pub fn get_if_changed(&mut self) -> (r: Option<&str>)
        ensures
            final(self)@ == (QueryView { text: old(self)@.text, changed: false }),
            old(self)@.changed ==> r is Some && r->0@ == old(self)@.text,
            !old(self)@.changed ==> r is None,
    {
        if self.query_changed {
            self.query_changed = false;
            Some(self.query.as_str())
        } else {
            None
        }
    }

    fn delete_query_char(&mut self)
        ensures
            final(self)@ == deleted(old(self)@),
    {
        if !self.query.as_str().is_empty() {
            self.query_changed = true;
            let _ = self.query.pop();
        }
    }

    fn add_to_query(&mut self, c: char)
        ensures
            final(self)@ == typed(old(self)@, c),
    {
        self.query_changed = true;
        self.query.push(c);
    }

    /// The query line keeps no input state.
    pub fn reset_input_state(&mut self)
        ensures
            final(self)@ == old(self)@,
    {
    }

    /// Takes an input event: a character key adds its character, the
    /// backspace key deletes the last one.
    pub fn handle_input(&mut self, event: Option<InputEvent>)
        ensures
            final(self)@ == query_after_event(old(self)@, event),
    {
        match event {
            Some(InputEvent::Key(KeyInput::Char(c))) => {
                self.add_to_query(c);
            },
            Some(InputEvent::Key(KeyInput::Backspace)) => {
                self.delete_query_char();
            },
            _ => {},
        }
    }

    /// The text that the query line shows: the query, or a hint while the
    /// query is empty.
    pub fn draw(&self) -> (r: String)
        ensures
            r@ == (if self@.text.len() == 0 {
                placeholder()
            } else {
                self@.text
            }),
    {
        if self.query.as_str().is_empty() {
            String::from_str("enter query here...")
        } else {
            self.query.clone()
        }
    }
}

} // verus!
