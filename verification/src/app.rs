//! The application state: the document, the two panes and which of them has
//! the keyboard, the log, and the flag that ends the session.

use crate::components::log_popup::{popup_text, LogPopup};
use crate::components::query::{placeholder, query_after_event, Query, QueryView};
use crate::components::render::{render_line_spec, spans_view, StyledSpan};
use crate::components::viewer::{
    after_event, event_outcome, frame_highlights, framed, in_bounds, visible_end, CommandOutcome,
    Viewer, ViewerView,
};
use crate::event::{InputEvent, KeyInput};
use crate::logger::Logger;
use crate::value::parser::{parse_spec, ParseError};
use crate::value::{document, ContainedValue, ValueView};
use vstd::prelude::*;

verus! {

/// The pane that has the keyboard.
#[derive(Debug, Clone, Copy, PartialEq, Eq, Structural)]
pub enum CurrentScreen {
    Viewer,
    Query,
}

/// The other pane.
pub open spec fn toggled(screen: CurrentScreen) -> CurrentScreen {
    match screen {
        CurrentScreen::Query => CurrentScreen::Viewer,
        CurrentScreen::Viewer => CurrentScreen::Query,
    }
}

impl CurrentScreen {
    pub fn toggle(self) -> (r: Self)
        ensures
            r == toggled(self),
    {
        match self {
            Self::Query => Self::Viewer,
            Self::Viewer => Self::Query,
        }
    }

    pub fn is_viewer(&self) -> (r: bool)
        ensures
            r == (*self is Viewer),
    {
        matches!(self, CurrentScreen::Viewer)
    }

    pub fn is_query(&self) -> (r: bool)
        ensures
            r == (*self is Query),
    {
        matches!(self, CurrentScreen::Query)
    }
}

/// The application as plain values.
pub struct AppView {
    pub done: bool,
    pub screen: CurrentScreen,
    pub show_logs: bool,
    pub document: ValueView,
    pub logs: Seq<Seq<char>>,
    pub viewer: ViewerView,
    pub query: QueryView,
}

/// The application right after it has read the document `tree`: the query
/// pane has the keyboard, the viewer shows the layout of the document with
/// the cursor at the origin.
pub open spec fn initial_app(tree: ValueView) -> AppView {
    AppView {
        done: false,
        screen: CurrentScreen::Query,
        show_logs: false,
        document: tree,
        logs: Seq::empty(),
        viewer: ViewerView {
            scroll: 0,
            row: 0,
            col: 0,
            lines: document(tree),
            pending: Seq::empty(),
            selections: Seq::empty(),
        },
        query: QueryView { text: Seq::empty(), changed: false },
    }
}

/// Whether `event` is the key `c`.
pub open spec fn is_key(event: Option<InputEvent>, c: char) -> bool {
    event == Some(InputEvent::Key(KeyInput::Char(c)))
}

/// The pane that has the keyboard after `event`: the tab key hands it on.
pub open spec fn screen_after_event(screen: CurrentScreen, event: Option<InputEvent>) -> CurrentScreen {
    if event == Some(InputEvent::Key(KeyInput::Tab)) {
        toggled(screen)
    } else {
        screen
    }
}

/// The application after an event.
///
/// The key `q` ends the session, the tab key hands the keyboard to the other
/// pane, the key `I` shows or hides the log. Then the pane that has the
/// keyboard takes the event, whatever it was, and the viewer, where it has
/// not, forgets its pending keys.
pub open spec fn app_after_event(a: AppView, event: Option<InputEvent>) -> AppView {
    let screen = screen_after_event(a.screen, event);
    AppView {
        done: a.done || is_key(event, 'q'),
        screen,
        show_logs: if is_key(event, 'I') {
            !a.show_logs
        } else {
            a.show_logs
        },
        viewer: if screen is Viewer {
            after_event(a.viewer, event)
        } else {
            ViewerView { pending: Seq::empty(), ..a.viewer }
        },
        query: if screen is Viewer {
            a.query
        } else {
            query_after_event(a.query, event)
        },
        ..a
    }
}

/// What becomes of an event: what the viewer makes of it where the viewer
/// takes it.
pub open spec fn app_event_outcome(a: AppView, event: Option<InputEvent>) -> CommandOutcome {
    if screen_after_event(a.screen, event) is Viewer {
        event_outcome(a.viewer.pending, event)
    } else {
        CommandOutcome::Done
    }
}

/// The message that is logged when the query has changed.
pub open spec fn query_message() -> Seq<char> {
    "recalculate_query"@
}

/// The application after a frame for a viewer window of `height` rows: a
/// changed query is noted in the log, the viewer is framed.
pub open spec fn app_drawn(a: AppView, height: int) -> AppView {
    AppView {
        logs: if a.query.changed {
            a.logs.push(query_message())
        } else {
            a.logs
        },
        query: QueryView { text: a.query.text, changed: false },
        viewer: framed(a.viewer, height),
        ..a
    }
}

/// What there is to paint.
pub struct Screen {
    /// The spans of the visible rows of the viewer.
    pub viewer: Vec<Vec<StyledSpan>>,
    pub viewer_active: bool,
    /// The first row that the viewer shows.
    pub scroll: i32,
    /// The number of rows that do not fit the viewer's window.
    pub hidden_rows: usize,
    /// The text of the query pane.
    pub query: String,
    pub query_active: bool,
    /// The text of the log window, where it is shown.
    pub logs: Option<String>,
}

/// The application.
pub struct App {
    done: bool,
    value: ContainedValue,
    current_screen: CurrentScreen,
    logger: Logger,
    show_logs: bool,
    logs: LogPopup,
    viewer: Viewer,
    query: Query,
}

impl View for App {
    type V = AppView;

    closed spec fn view(&self) -> AppView {
        AppView {
            done: self.done,
            screen: self.current_screen,
            show_logs: self.show_logs,
            document: self.value@,
            logs: self.logger@,
            viewer: self.viewer@,
            query: self.query@,
        }
    }
}

impl App {
    /// Reads the document `source` and starts the application on it.
    pub fn new(source: String) -> (r: Result<Self, ParseError>)
        ensures
            match parse_spec(source@) {
                Ok(tree) => r is Ok && r->Ok_0@ == initial_app(tree),
                Err(e) => r is Err && r->Err_0@ == e,
            },
    {
        let value = match ContainedValue::parse(source) {
            Ok(v) => v,
            Err(e) => {
                return Err(e);
            },
        };
        let mut viewer = Viewer::new();
        viewer.set_value_elemnets(value.get().elemnets());
        Ok(
            Self {
                done: false,
                value,
                current_screen: CurrentScreen::Query,
                logger: Logger::new(),
                show_logs: false,
                logs: LogPopup::new(),
                viewer,
                query: Query::new(),
            },
        )
    }

    /// Whether the session has ended.
    pub fn done(&self) -> (r: bool)
        ensures
            r == self@.done,
    {
        self.done
    }

    fn recalculate_query(&mut self, _query: &str)
        ensures
            final(self)@ == (AppView { logs: old(self)@.logs.push(query_message()), ..old(self)@ }),
    {
        self.logger.log("recalculate_query");
    }

    fn toggle_screen(&mut self)
        ensures
            final(self)@ == (AppView { screen: toggled(old(self)@.screen), ..old(self)@ }),
    {
        self.current_screen = self.current_screen.toggle();
    }

    /// Prepares a frame for a viewer window of `viewer_height` rows and says
    /// what there is to paint.
    pub fn draw(&mut self, viewer_height: usize) -> (r: Screen)
        requires
            viewer_height >= 1,
        ensures
            final(self)@ == app_drawn(old(self)@, viewer_height as int),
            in_bounds(final(self)@.viewer, viewer_height as int),
            r.viewer.len() == visible_end(final(self)@.viewer, viewer_height as int)
                - final(self)@.viewer.scroll,
            forall|i: int|
                0 <= i < r.viewer.len() ==> spans_view(#[trigger] r.viewer[i]) == render_line_spec(
                    final(self)@.viewer.lines[final(self)@.viewer.scroll + i],
                    frame_highlights(final(self)@.viewer, final(self)@.viewer.scroll + i),
                ),
            r.viewer_active == (final(self)@.screen is Viewer),
            r.query_active == (final(self)@.screen is Query),
            r.scroll == final(self)@.viewer.scroll,
            r.hidden_rows == (if final(self)@.viewer.lines.len() > viewer_height {
                final(self)@.viewer.lines.len() - viewer_height
            } else {
                0
            }),
            r.query@ == (if final(self)@.query.text.len() == 0 {
                placeholder()
            } else {
                final(self)@.query.text
            }),
            final(self)@.show_logs ==> r.logs is Some && r.logs->0@ == popup_text(final(self)@.logs),
            !final(self)@.show_logs ==> r.logs is None,
    {
        let changed = match self.query.get_if_changed() {
            Some(new_query) => Some(String::from_str(new_query)),
            None => None,
        };
        match changed {
            Some(new_query) => {
                self.recalculate_query(new_query.as_str());
            },
            None => {},
        }
        let viewer = self.viewer.draw(viewer_height);
        let (scroll, hidden_rows) = self.viewer.scrollbar(viewer_height);
        let query = self.query.draw();
        let logs = if self.show_logs {
            Some(self.logs.draw(&self.logger))
        } else {
            None
        };
        Screen {
            viewer,
            viewer_active: self.current_screen.is_viewer(),
            scroll,
            hidden_rows,
            query,
            query_active: self.current_screen.is_query(),
            logs,
        }
    }

    /// Takes an input event.
    pub fn handle_event(&mut self, event: Option<InputEvent>) -> (r: CommandOutcome)
        ensures
            final(self)@ == app_after_event(old(self)@, event),
            r == app_event_outcome(old(self)@, event),
    {
        match event {
            Some(InputEvent::Key(KeyInput::Char('q'))) => {
                self.done = true;
            },
            Some(InputEvent::Key(KeyInput::Tab)) => {
                self.toggle_screen();
            },
            Some(InputEvent::Key(KeyInput::Char('I'))) => {
                self.show_logs = !self.show_logs;
            },
            _ => {},
        }
        match self.current_screen {
            CurrentScreen::Viewer => {
                let r = self.viewer.handle_input(event);
                self.query.reset_input_state();
                r
            },
            CurrentScreen::Query => {
                self.viewer.reset_input_state();
                self.query.handle_input(event);
                CommandOutcome::Done
            },
        }
    }
}

} // verus!
