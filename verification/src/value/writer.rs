//! The tokenizing writer: it walks a value and lays it out as lines of typed
//! elements, compact where a container is short and flat, one child per line
//! where it is not.

use super::{MemberView, Value, ValueArray, ValueObject, ValueView};
use vstd::prelude::*;

verus! {

/// What kind of text an element holds.
#[derive(Debug, Clone, Copy, PartialEq, Eq, Structural)]
pub enum ElementType {
    Whtiespace,
    Comma,
    Key,
    NullLiteral,
    BoolLiteral,
    NumberLiteral,
    StringLiteral,
    /// `(` or `)`
    _Paren,
    /// `[` or `]`
    Bracket,
    /// `{` or `}`
    Brace,
    /// `[ ... ]`
    CollapsedBracket,
    /// `{ ... }`
    CollapsedBrace,
}

/// The smallest unit of rendered text: a kind and the characters.
#[derive(Debug, PartialEq, Eq)]
pub struct Element {
    pub ty: ElementType,
    pub content: String,
}

/// An element as a plain value.
pub struct ElementView {
    pub ty: ElementType,
    pub content: Seq<char>,
}

impl View for Element {
    type V = ElementView;

    open spec fn view(&self) -> ElementView {
        ElementView { ty: self.ty, content: self.content@ }
    }
}

/// The elements of one line as plain values.
pub open spec fn line_view(line: Vec<Element>) -> Seq<ElementView> {
    line@.map_values(|e: Element| e@)
}

/// Lines of elements as plain values.
pub open spec fn lines_view(lines: Vec<Vec<Element>>) -> Seq<Seq<ElementView>> {
    lines@.map_values(|l: Vec<Element>| line_view(l))
}

pub open spec fn element(ty: ElementType, content: Seq<char>) -> ElementView {
    ElementView { ty, content }
}

pub open spec fn whitespace_element(s: Seq<char>) -> ElementView {
    element(ElementType::Whtiespace, s)
}

pub open spec fn comma_element() -> ElementView {
    element(ElementType::Comma, seq![','])
}

/// The key element of a member: the name in double quotes, a colon, a space.
pub open spec fn key_element(name: Seq<char>) -> ElementView {
    element(ElementType::Key, seq!['"'] + name + seq!['"', ':', ' '])
}

pub open spec fn null_element() -> ElementView {
    element(ElementType::NullLiteral, seq!['n', 'u', 'l', 'l'])
}

pub open spec fn bool_text(value: bool) -> Seq<char> {
    if value {
        seq!['t', 'r', 'u', 'e']
    } else {
        seq!['f', 'a', 'l', 's', 'e']
    }
}

pub open spec fn bool_element(value: bool) -> ElementView {
    element(ElementType::BoolLiteral, bool_text(value))
}

/// A number element holds the number's text as it is.
pub open spec fn number_element(text: Seq<char>) -> ElementView {
    element(ElementType::NumberLiteral, text)
}

/// A string element holds the string's text as it is, in double quotes.
pub open spec fn string_element(text: Seq<char>) -> ElementView {
    element(ElementType::StringLiteral, seq!['"'] + text + seq!['"'])
}

pub open spec fn open_bracket_element() -> ElementView {
    element(ElementType::Bracket, seq!['['])
}

pub open spec fn close_bracket_element() -> ElementView {
    element(ElementType::Bracket, seq![']'])
}

pub open spec fn open_brace_element() -> ElementView {
    element(ElementType::Brace, seq!['{'])
}

pub open spec fn close_brace_element() -> ElementView {
    element(ElementType::Brace, seq!['}'])
}

pub open spec fn collapsed_bracket_element() -> ElementView {
    element(ElementType::CollapsedBracket, seq!['[', ' ', '.', '.', '.', ' ', ']'])
}

pub open spec fn collapsed_brace_element() -> ElementView {
    element(ElementType::CollapsedBrace, seq!['{', ' ', '.', '.', '.', ' ', '}'])
}

impl Element {
    pub fn new(ty: ElementType, content: String) -> (r: Self)
        ensures
            r@ == element(ty, content@),
    {
        Self { ty, content }
    }

    pub fn whtiespace(s: String) -> (r: Self)
        ensures
            r@ == whitespace_element(s@),
    {
        Self::new(ElementType::Whtiespace, s)
    }

    pub fn comma() -> (r: Self)
        ensures
            r@ == comma_element(),
    {
        proof {
            reveal_strlit(",");
        }
        let r = Self::new(ElementType::Comma, String::from_str(","));
        assert(r.content@ =~= seq![',']);
        r
    }

    pub fn key(s: String) -> (r: Self)
        ensures
            r@ == element(ElementType::Key, s@),
    {
        Self::new(ElementType::Key, s)
    }

    pub fn null_literal() -> (r: Self)
        ensures
            r@ == null_element(),
    {
        proof {
            reveal_strlit("null");
        }
        let r = Self::new(ElementType::NullLiteral, String::from_str("null"));
        assert(r.content@ =~= seq!['n', 'u', 'l', 'l']);
        r
    }

    pub fn bool_literal(value: bool) -> (r: Self)
        ensures
            r@ == bool_element(value),
    {
        proof {
            reveal_strlit("true");
            reveal_strlit("false");
        }
        let r = if value {
            Self::new(ElementType::BoolLiteral, String::from_str("true"))
        } else {
            Self::new(ElementType::BoolLiteral, String::from_str("false"))
        };
        assert(r.content@ =~= bool_text(value));
        r
    }

    pub fn number_literal(s: String) -> (r: Self)
        ensures
            r@ == number_element(s@),
    {
        Self::new(ElementType::NumberLiteral, s)
    }

    pub fn string_literal(s: String) -> (r: Self)
        ensures
            r@ == element(ElementType::StringLiteral, s@),
    {
        Self::new(ElementType::StringLiteral, s)
    }

    pub fn _paren(s: String) -> (r: Self)
        ensures
            r@ == element(ElementType::_Paren, s@),
    {
        Self::new(ElementType::_Paren, s)
    }

    pub fn open_bracket() -> (r: Self)
        ensures
            r@ == open_bracket_element(),
    {
        proof {
            reveal_strlit("[");
        }
        let r = Self::new(ElementType::Bracket, String::from_str("["));
        assert(r.content@ =~= seq!['[']);
        r
    }

    pub fn close_bracket() -> (r: Self)
        ensures
            r@ == close_bracket_element(),
    {
        proof {
            reveal_strlit("]");
        }
        let r = Self::new(ElementType::Bracket, String::from_str("]"));
        assert(r.content@ =~= seq![']']);
        r
    }

    pub fn open_brace() -> (r: Self)
        ensures
            r@ == open_brace_element(),
    {
        proof {
            reveal_strlit("{");
        }
        let r = Self::new(ElementType::Brace, String::from_str("{"));
        assert(r.content@ =~= seq!['{']);
        r
    }

    pub fn close_brace() -> (r: Self)
        ensures
            r@ == close_brace_element(),
    {
        proof {
            reveal_strlit("}");
        }
        let r = Self::new(ElementType::Brace, String::from_str("}"));
        assert(r.content@ =~= seq!['}']);
        r
    }

    pub fn collapsed_bracket() -> (r: Self)
        ensures
            r@ == collapsed_bracket_element(),
    {
        proof {
            reveal_strlit("[ ... ]");
        }
        let r = Self::new(ElementType::CollapsedBracket, String::from_str("[ ... ]"));
        assert(r.content@ =~= seq!['[', ' ', '.', '.', '.', ' ', ']']);
        r
    }

    pub fn collapsed_brace() -> (r: Self)
        ensures
            r@ == collapsed_brace_element(),
    {
        proof {
            reveal_strlit("{ ... }");
        }
        let r = Self::new(ElementType::CollapsedBrace, String::from_str("{ ... }"));
        assert(r.content@ =~= seq!['{', ' ', '.', '.', '.', ' ', '}']);
        r
    }

}

impl Clone for Element {
    fn clone(&self) -> (r: Self)
        ensures
            r@ == self@,
    {
        Self { ty: self.ty, content: self.content.clone() }
    }
}

} // verus!

verus! {

/// One step of the writer's output: an element on the current line, or the
/// start of a new line at a depth of indentation.
pub enum Piece {
    Item(ElementView),
    Break(nat),
}

pub open spec fn is_container(v: ValueView) -> bool {
    v is Array || v is Object
}

/// None of `items` is an array or an object.
pub open spec fn all_scalar(items: Seq<ValueView>) -> bool {
    forall|i: int| 0 <= i < items.len() ==> !is_container(#[trigger] items[i])
}

/// The values of `members`.
pub open spec fn member_values(members: Seq<MemberView>) -> Seq<ValueView> {
    members.map_values(|m: MemberView| m.value)
}

/// An array is written one item per line unless it has fewer than five
/// items and none of them is a container.
pub open spec fn array_expanded(items: Seq<ValueView>) -> bool {
    !(items.len() < 5 && all_scalar(items))
}

/// An object is written one member per line unless it has fewer than two
/// members and none of their values is a container.
pub open spec fn object_expanded(members: Seq<MemberView>) -> bool {
    !(members.len() < 2 && all_scalar(member_values(members)))
}

/// The depth at which the children of a container at depth `indent` stand.
pub open spec fn child_indent(indent: nat, expanded: bool) -> nat {
    if expanded {
        indent + 1
    } else {
        indent
    }
}

/// What opens a container: its bracket and, where it is expanded, a new line
/// one level deeper.
pub open spec fn opening(bracket: ElementView, indent: nat, expanded: bool) -> Seq<Piece> {
    if expanded {
        seq![Piece::Item(bracket), Piece::Break(indent + 1)]
    } else {
        seq![Piece::Item(bracket)]
    }
}

/// What follows child `i` of `n`: a comma unless it is the last, and, in an
/// expanded container, a new line, which after the last child stands at the
/// container's own depth.
pub open spec fn after_child(i: int, n: int, indent: nat, expanded: bool) -> Seq<Piece> {
    let comma = if i + 1 != n {
        seq![Piece::Item(comma_element())]
    } else {
        Seq::empty()
    };
    let line = if expanded {
        seq![Piece::Break(if i + 1 == n { indent } else { indent + 1 })]
    } else {
        Seq::empty()
    };
    comma + line
}

/// The writer's output for `v` at depth `indent`.
pub open spec fn value_pieces(v: ValueView, indent: nat) -> Seq<Piece>
    decreases v, 0nat,
{
    match v {
        ValueView::Null => seq![Piece::Item(null_element())],
        ValueView::Bool(b) => seq![Piece::Item(bool_element(b))],
        ValueView::Number(s) => seq![Piece::Item(number_element(s))],
        ValueView::String(s) => seq![Piece::Item(string_element(s))],
        ValueView::Array { collapse, items } => if collapse {
            seq![Piece::Item(collapsed_bracket_element())]
        } else {
            opening(open_bracket_element(), indent, array_expanded(items)) + items_pieces(
                items,
                items.len(),
                indent,
                array_expanded(items),
            ) + seq![Piece::Item(close_bracket_element())]
        },
        ValueView::Object { collapse, members } => if collapse {
            seq![Piece::Item(collapsed_brace_element())]
        } else {
            opening(open_brace_element(), indent, object_expanded(members)) + members_pieces(
                members,
                members.len(),
                indent,
                object_expanded(members),
            ) + seq![Piece::Item(close_brace_element())]
        },
    }
}

/// The writer's output for the first `n` items of an array at depth `indent`.
pub open spec fn items_pieces(items: Seq<ValueView>, n: nat, indent: nat, expanded: bool) -> Seq<
    Piece,
>
    decreases items, n,
{
    if n == 0 || n > items.len() {
        Seq::empty()
    } else {
        items_pieces(items, (n - 1) as nat, indent, expanded) + value_pieces(
            items[n - 1],
            child_indent(indent, expanded),
        ) + after_child(n - 1, items.len() as int, indent, expanded)
    }
}

/// The writer's output for the first `n` members of an object at depth
/// `indent`.
pub open spec fn members_pieces(
    members: Seq<MemberView>,
    n: nat,
    indent: nat,
    expanded: bool,
) -> Seq<Piece>
    decreases members, n,
{
    if n == 0 || n > members.len() {
        Seq::empty()
    } else {
        members_pieces(members, (n - 1) as nat, indent, expanded) + seq![
            Piece::Item(key_element(members[n - 1].name)),
        ] + value_pieces(members[n - 1].value, child_indent(indent, expanded)) + after_child(
            n - 1,
            members.len() as int,
            indent,
            expanded,
        )
    }
}

/// The line that a break at depth `k` starts: `k` indentation elements.
pub open spec fn fresh_line(k: nat, indent_text: Seq<char>) -> Seq<ElementView> {
    Seq::new(k, |i: int| whitespace_element(indent_text))
}

/// `lines` after one piece: an element goes to the end of the last line, a
/// break starts a new last line.
pub open spec fn place(lines: Seq<Seq<ElementView>>, p: Piece, indent_text: Seq<char>) -> Seq<
    Seq<ElementView>,
> {
    match p {
        Piece::Item(e) => if lines.len() == 0 {
            lines
        } else {
            lines.update(lines.len() - 1, lines.last().push(e))
        },
        Piece::Break(k) => lines.push(fresh_line(k, indent_text)),
    }
}

/// `lines` after `pieces`, one after another.
pub open spec fn layout(lines: Seq<Seq<ElementView>>, pieces: Seq<Piece>, indent_text: Seq<char>) -> Seq<
    Seq<ElementView>,
>
    decreases pieces.len(),
{
    if pieces.len() == 0 {
        lines
    } else {
        place(layout(lines, pieces.drop_last(), indent_text), pieces.last(), indent_text)
    }
}

/// Laying out `a + b` is laying out `a` and then `b`.
pub proof fn lemma_layout_concat(
    lines: Seq<Seq<ElementView>>,
    a: Seq<Piece>,
    b: Seq<Piece>,
    indent_text: Seq<char>,
)
    ensures
        layout(lines, a + b, indent_text) == layout(layout(lines, a, indent_text), b, indent_text),
    decreases b.len(),
{
    if b.len() == 0 {
        assert(a + b =~= a);
    } else {
        lemma_layout_concat(lines, a, b.drop_last(), indent_text);
        assert((a + b).drop_last() =~= a + b.drop_last());
        assert((a + b).last() == b.last());
    }
}

/// Laying out a single piece places it.
pub proof fn lemma_layout_one(lines: Seq<Seq<ElementView>>, p: Piece, indent_text: Seq<char>)
    ensures
        layout(lines, seq![p], indent_text) == place(lines, p, indent_text),
{
    assert(seq![p].drop_last() =~= Seq::<Piece>::empty());
    assert(layout(lines, seq![p].drop_last(), indent_text) == lines);
}

/// Layout never removes a line.
pub proof fn lemma_layout_len(lines: Seq<Seq<ElementView>>, pieces: Seq<Piece>, indent_text: Seq<char>)
    ensures
        layout(lines, pieces, indent_text).len() >= lines.len(),
    decreases pieces.len(),
{
    if pieces.len() > 0 {
        lemma_layout_len(lines, pieces.drop_last(), indent_text);
    }
}

/// The characters of a line: the contents of its elements, one after another.
pub open spec fn line_text(line: Seq<ElementView>) -> Seq<char>
    decreases line.len(),
{
    if line.len() == 0 {
        Seq::empty()
    } else {
        line_text(line.drop_last()) + line.last().content
    }
}

/// The characters of `lines`, with a line feed between one line and the next.
pub open spec fn join_lines(lines: Seq<Seq<ElementView>>) -> Seq<char>
    decreases lines.len(),
{
    if lines.len() == 0 {
        Seq::empty()
    } else if lines.len() == 1 {
        line_text(lines[0])
    } else {
        join_lines(lines.drop_last()) + seq!['\n'] + line_text(lines.last())
    }
}

/// The text of a string literal element: the text in double quotes.
pub fn quoted(text: &str) -> (r: String)
    ensures
        r@ == seq!['"'] + text@ + seq!['"'],
{
    let mut r = String::new();
    r.push('"');
    r.append(text);
    r.push('"');
    assert(r@ =~= seq!['"'] + text@ + seq!['"']);
    r
}

/// The text of a key element: the name in double quotes, a colon, a space.
pub fn key_text(name: &str) -> (r: String)
    ensures
        r@ == key_element(name@).content,
{
    let mut r = String::new();
    r.push('"');
    r.append(name);
    r.push('"');
    r.push(':');
    r.push(' ');
    assert(r@ =~= seq!['"'] + name@ + seq!['"', ':', ' ']);
    r
}

/// Whether `v` is an array or an object.
pub fn value_is_container(v: &Value) -> (r: bool)
    ensures
        r == is_container(v@),
{
    match v {
        Value::Array(_) => true,
        Value::Object(_) => true,
        _ => false,
    }
}

/// Lays values out as lines of elements.
pub struct Writer {
    /// The lines that are complete.
    finished: Vec<Vec<Element>>,
    /// The line that is being written.
    current: Vec<Element>,
    indent_str: String,
    /// The expanded containers that are open, outermost first.
    open: Vec<ElementType>,
}

impl View for Writer {
    type V = Seq<Seq<ElementView>>;

    /// The lines written so far; the last one is still open.
    closed spec fn view(&self) -> Seq<Seq<ElementView>> {
        lines_view(self.finished).push(line_view(self.current))
    }
}

impl Writer {
    /// The current depth of indentation.
    pub closed spec fn indent(&self) -> nat {
        self.open.len() as nat
    }

    /// The text of one level of indentation.
    pub closed spec fn indent_text(&self) -> Seq<char> {
        self.indent_str@
    }

    /// A writer with one empty line, at depth 0, that indents by four spaces.
    pub fn new() -> (r: Self)
        ensures
            r@ == seq![Seq::<ElementView>::empty()],
            r.indent() == 0,
            r.indent_text() == seq![' ', ' ', ' ', ' '],
    {
        proof {
            reveal_strlit("    ");
        }
        let r = Self {
            finished: Vec::new(),
            current: Vec::new(),
            indent_str: String::from_str("    "),
            open: Vec::new(),
        };
        assert(r.indent_str@ =~= seq![' ', ' ', ' ', ' ']);
        assert(r@ =~= seq![Seq::<ElementView>::empty()]) by {
            assert(line_view(r.current) =~= Seq::<ElementView>::empty());
        }
        r
    }

    /// There is always a last line.
    pub proof fn lemma_has_line(&self)
        ensures
            self@.len() > 0,
    {
    }

    fn push_last(&mut self, e: Element)
        ensures
            final(self)@ == place(old(self)@, Piece::Item(e@), old(self).indent_text()),
            final(self).indent() == old(self).indent(),
            final(self).indent_text() == old(self).indent_text(),
    {
        self.current.push(e);
        proof {
            assert(line_view(self.current) =~= line_view(old(self).current).push(e@));
            assert(self@ =~= place(old(self)@, Piece::Item(e@), old(self).indent_text()));
        }
    }

    fn newline(&mut self)
        ensures
            final(self)@ == place(
                old(self)@,
                Piece::Break(old(self).indent()),
                old(self).indent_text(),
            ),
            final(self).indent() == old(self).indent(),
            final(self).indent_text() == old(self).indent_text(),
    {
        let mut line: Vec<Element> = Vec::new();
        let mut i: usize = 0;
        while i < self.open.len()
            invariant
                i <= self.open.len(),
                line.len() == i,
                forall|j: int| 0 <= j < i ==> (#[trigger] line[j])@ == whitespace_element(self.indent_str@),
            decreases self.open.len() - i,
        {
            line.push(Element::whtiespace(self.indent_str.clone()));
            i += 1;
        }
        assert(line_view(line) =~= fresh_line(self.open.len() as nat, self.indent_str@));
        core::mem::swap(&mut self.current, &mut line);
        self.finished.push(line);
        proof {
            assert(lines_view(self.finished) =~= lines_view(old(self).finished).push(
                line_view(old(self).current),
            ));
            assert(self@ =~= old(self)@.push(line_view(self.current)));
        }
    }

    fn enter(&mut self, kind: ElementType)
        ensures
            final(self)@ == old(self)@,
            final(self).indent() == old(self).indent() + 1,
            final(self).indent_text() == old(self).indent_text(),
    {
        self.open.push(kind);
    }

    fn leave(&mut self)
        requires
            old(self).indent() > 0,
        ensures
            final(self)@ == old(self)@,
            final(self).indent() == old(self).indent() - 1,
            final(self).indent_text() == old(self).indent_text(),
    {
        let _ = self.open.pop();
    }

    fn write_null(&mut self)
        ensures
            final(self)@ == place(old(self)@, Piece::Item(null_element()), old(self).indent_text()),
            final(self).indent() == old(self).indent(),
            final(self).indent_text() == old(self).indent_text(),
    {
        self.push_last(Element::null_literal());
    }

    fn write_bool(&mut self, value: bool)
        ensures
            final(self)@ == place(
                old(self)@,
                Piece::Item(bool_element(value)),
                old(self).indent_text(),
            ),
            final(self).indent() == old(self).indent(),
            final(self).indent_text() == old(self).indent_text(),
    {
        self.push_last(Element::bool_literal(value));
    }

    fn write_number(&mut self, value: &str)
        ensures
            final(self)@ == place(
                old(self)@,
                Piece::Item(number_element(value@)),
                old(self).indent_text(),
            ),
            final(self).indent() == old(self).indent(),
            final(self).indent_text() == old(self).indent_text(),
    {
        self.push_last(Element::number_literal(String::from_str(value)));
    }

    fn write_string(&mut self, value: &str)
        ensures
            final(self)@ == place(
                old(self)@,
                Piece::Item(string_element(value@)),
                old(self).indent_text(),
            ),
            final(self).indent() == old(self).indent(),
            final(self).indent_text() == old(self).indent_text(),
    {
        self.push_last(Element::string_literal(quoted(value)));
    }

    fn write_arr(&mut self, a: &ValueArray)
        ensures
            final(self)@ == layout(
                old(self)@,
                value_pieces(ValueView::Array { collapse: a.collapse, items: a@ }, old(self).indent()),
                old(self).indent_text(),
            ),
            final(self).indent() == old(self).indent(),
            final(self).indent_text() == old(self).indent_text(),
        decreases a,
    {
        let ghost start = self@;
        let ghost ind = self.indent();
        let ghost text = self.indent_text();
        let ghost items = a@;
        if a.collapse {
            self.push_last(Element::collapsed_bracket());
            proof {
                lemma_layout_one(start, Piece::Item(collapsed_bracket_element()), text);
            }
            return ;
        }
        let n = a.arr.len();
        let simple = items_all_scalar(a);
        let expanded = !(n < 5 && simple);
        self.push_last(Element::open_bracket());
        let ghost mut done = seq![Piece::Item(open_bracket_element())];
        proof {
            lemma_layout_one(start, Piece::Item(open_bracket_element()), text);
        }
        if expanded {
            self.enter(ElementType::Bracket);
            self.newline();
            proof {
                lemma_layout_push(start, done, Piece::Break(ind + 1), text);
                done = done.push(Piece::Break(ind + 1));
            }
        }
        assert(done =~= opening(open_bracket_element(), ind, expanded));
        let mut i: usize = 0;
        while i < n
            invariant
                i <= n,
                n == a.arr.len(),
                items == a@,
                expanded == array_expanded(items),
                self@ == layout(start, done, text),
                done == opening(open_bracket_element(), ind, expanded) + items_pieces(
                    items,
                    i as nat,
                    ind,
                    expanded,
                ),
                self.indent() == (if expanded && i < n {
                    ind + 1
                } else {
                    ind
                }),
                self.indent_text() == text,
            decreases n - i,
        {
            let ghost child = value_pieces(items[i as int], child_indent(ind, expanded));
            self.write_value(&a.arr[i]);
            proof {
                lemma_layout_concat(start, done, child, text);
                done = done + child;
            }
            if i != n - 1 {
                self.push_last(Element::comma());
                proof {
                    lemma_layout_push(start, done, Piece::Item(comma_element()), text);
                    done = done.push(Piece::Item(comma_element()));
                }
            }
            if i == n - 1 && expanded {
                self.leave();
            }
            if expanded {
                self.newline();
                proof {
                    let k: nat = if i + 1 == n {
                        ind
                    } else {
                        ind + 1
                    };
                    lemma_layout_push(start, done, Piece::Break(k), text);
                    done = done.push(Piece::Break(k));
                }
            }
            i += 1;
            assert(done =~= opening(open_bracket_element(), ind, expanded) + items_pieces(
                items,
                i as nat,
                ind,
                expanded,
            ));
        }
        self.push_last(Element::close_bracket());
        proof {
            lemma_layout_push(start, done, Piece::Item(close_bracket_element()), text);
            assert(done.push(Piece::Item(close_bracket_element())) =~= value_pieces(
                ValueView::Array { collapse: a.collapse, items: a@ },
                ind,
            ));
        }
    }

    fn write_object(&mut self, o: &ValueObject)
        ensures
            final(self)@ == layout(
                old(self)@,
                value_pieces(
                    ValueView::Object { collapse: o.collapse, members: o@ },
                    old(self).indent(),
                ),
                old(self).indent_text(),
            ),
            final(self).indent() == old(self).indent(),
            final(self).indent_text() == old(self).indent_text(),
        decreases o,
    {
        let ghost start = self@;
        let ghost ind = self.indent();
        let ghost text = self.indent_text();
        let ghost members = o@;
        if o.collapse {
            self.push_last(Element::collapsed_brace());
            proof {
                lemma_layout_one(start, Piece::Item(collapsed_brace_element()), text);
            }
            return ;
        }
        let n = o.map.len();
        let simple = members_all_scalar(o);
        let expanded = !(n < 2 && simple);
        self.push_last(Element::open_brace());
        let ghost mut done = seq![Piece::Item(open_brace_element())];
        proof {
            lemma_layout_one(start, Piece::Item(open_brace_element()), text);
        }
        if expanded {
            self.enter(ElementType::Brace);
            self.newline();
            proof {
                lemma_layout_push(start, done, Piece::Break(ind + 1), text);
                done = done.push(Piece::Break(ind + 1));
            }
        }
        assert(done =~= opening(open_brace_element(), ind, expanded));
        let mut i: usize = 0;
        while i < n
            invariant
                i <= n,
                n == o.map.len(),
                members == o@,
                expanded == object_expanded(members),
                self@ == layout(start, done, text),
                done == opening(open_brace_element(), ind, expanded) + members_pieces(
                    members,
                    i as nat,
                    ind,
                    expanded,
                ),
                self.indent() == (if expanded && i < n {
                    ind + 1
                } else {
                    ind
                }),
                self.indent_text() == text,
            decreases n - i,
        {
            let ghost child = value_pieces(members[i as int].value, child_indent(ind, expanded));
            self.push_last(Element::key(key_text(o.map[i].0.as_str())));
            proof {
                lemma_layout_push(start, done, Piece::Item(key_element(members[i as int].name)), text);
                done = done.push(Piece::Item(key_element(members[i as int].name)));
            }
            self.write_value(&o.map[i].1);
            proof {
                lemma_layout_concat(start, done, child, text);
                done = done + child;
            }
            if i != n - 1 {
                self.push_last(Element::comma());
                proof {
                    lemma_layout_push(start, done, Piece::Item(comma_element()), text);
                    done = done.push(Piece::Item(comma_element()));
                }
            }
            if i == n - 1 && expanded {
                self.leave();
            }
            if expanded {
                self.newline();
                proof {
                    let k: nat = if i + 1 == n {
                        ind
                    } else {
                        ind + 1
                    };
                    lemma_layout_push(start, done, Piece::Break(k), text);
                    done = done.push(Piece::Break(k));
                }
            }
            i += 1;
            assert(done =~= opening(open_brace_element(), ind, expanded) + members_pieces(
                members,
                i as nat,
                ind,
                expanded,
            ));
        }
        self.push_last(Element::close_brace());
        proof {
            lemma_layout_push(start, done, Piece::Item(close_brace_element()), text);
            assert(done.push(Piece::Item(close_brace_element())) =~= value_pieces(
                ValueView::Object { collapse: o.collapse, members: o@ },
                ind,
            ));
        }
    }

    /// Writes `value` after what has been written.
    ///
    /// A scalar is one element on the current line. A collapsed container is
    /// one placeholder element. Any other container is written compact, all
    /// on the current line, if it is short and holds no container; else its
    /// bracket opens it, each child stands on a line of its own one level
    /// deeper, with a comma after all but the last, and the closing bracket
    /// stands on a line at the depth of the opening one. Members of objects
    /// start with a key element.
    pub fn write_value(&mut self, value: &Value)
        ensures
            final(self)@ == layout(
                old(self)@,
                value_pieces(value@, old(self).indent()),
                old(self).indent_text(),
            ),
            final(self).indent() == old(self).indent(),
            final(self).indent_text() == old(self).indent_text(),
        decreases value,
    {
        let ghost start = self@;
        let ghost text = self.indent_text();
        match value {
            Value::Null => {
                self.write_null();
                proof {
                    lemma_layout_one(start, Piece::Item(null_element()), text);
                }
            },
            Value::Bool(x) => {
                self.write_bool(*x);
                proof {
                    lemma_layout_one(start, Piece::Item(bool_element(*x)), text);
                }
            },
            Value::Number(x) => {
                self.write_number(x.as_str());
                proof {
                    lemma_layout_one(start, Piece::Item(number_element(x@)), text);
                }
            },
            Value::String(x) => {
                self.write_string(x.as_str());
                proof {
                    lemma_layout_one(start, Piece::Item(string_element(x@)), text);
                }
            },
            Value::Array(a) => {
                assert(value@ == ValueView::Array { collapse: a.collapse, items: a@ });
                self.write_arr(a);
            },
            Value::Object(o) => {
                assert(value@ == ValueView::Object { collapse: o.collapse, members: o@ });
                self.write_object(o);
            },
        }
    }

    /// The text of each line.
    pub fn lines(&self) -> (r: Vec<String>)
        ensures
            r.len() == self@.len(),
            forall|i: int| 0 <= i < r.len() ==> (#[trigger] r[i])@ == line_text(self@[i]),
    {
        let mut r: Vec<String> = Vec::new();
        let mut i: usize = 0;
        while i < self.finished.len()
            invariant
                i <= self.finished.len(),
                r.len() == i,
                forall|j: int| 0 <= j < i ==> (#[trigger] r[j])@ == line_text(self@[j]),
            decreases self.finished.len() - i,
        {
            r.push(line_string(&self.finished[i]));
            i += 1;
        }
        r.push(line_string(&self.current));
        r
    }

    /// Sets the text of one level of indentation.
    pub fn with_indent_str(&mut self, indent_str: String)
        ensures
            final(self).indent_text() == indent_str@,
            final(self)@ == old(self)@,
            final(self).indent() == old(self).indent(),
    {
        self.indent_str = indent_str;
    }

    /// Sets the text of one level of indentation to `indent_size` spaces
    /// with one more space between each two of them.
    pub fn with_indent_size(&mut self, indent_size: usize)
        ensures
            final(self).indent_text() == spaced(indent_size as nat),
            final(self)@ == old(self)@,
            final(self).indent() == old(self).indent(),
    {
        let mut s = String::new();
        let mut i: usize = 0;
        while i < indent_size
            invariant
                i <= indent_size,
                s@ == spaced(i as nat),
            decreases indent_size - i,
        {
            if i > 0 {
                s.push(' ');
            }
            s.push(' ');
            i += 1;
            assert(s@ =~= spaced(i as nat));
        }
        self.indent_str = s;
    }

    /// The lines that were written.
    pub fn get(self) -> (r: Vec<Vec<Element>>)
        ensures
            lines_view(r) == self@,
    {
        let mut r = self.finished;
        r.push(self.current);
        assert(lines_view(r) =~= self@);
        r
    }

    /// The text that was written: the lines with a line feed between them.
    pub fn to_string(&self) -> (r: String)
        ensures
            r@ == join_lines(self@),
    {
        let mut r = String::new();
        let mut i: usize = 0;
        while i < self.finished.len()
            invariant
                i <= self.finished.len(),
                r@ == join_before(self@, i as int),
            decreases self.finished.len() - i,
        {
            let l = line_string(&self.finished[i]);
            r.append(l.as_str());
            r.push('\n');
            proof {
                lemma_join_before_step(self@, i as int);
            }
            i += 1;
        }
        let l = line_string(&self.current);
        r.append(l.as_str());
        proof {
            lemma_join_before_last(self@);
        }
        r
    }
}

/// `n` spaces with one more space between each two of them.
pub open spec fn spaced(n: nat) -> Seq<char> {
    Seq::new(
        if n == 0 {
            0nat
        } else {
            (2 * n - 1) as nat
        },
        |i: int| ' ',
    )
}

/// The text of the lines before line `n`, each with its line feed.
pub open spec fn join_before(lines: Seq<Seq<ElementView>>, n: int) -> Seq<char>
    decreases n,
{
    if n <= 0 {
        Seq::empty()
    } else {
        join_before(lines, n - 1) + line_text(lines[n - 1]) + seq!['\n']
    }
}

pub proof fn lemma_join_before_step(lines: Seq<Seq<ElementView>>, n: int)
    requires
        0 <= n,
    ensures
        join_before(lines, n + 1) == join_before(lines, n) + line_text(lines[n]) + seq!['\n'],
{
}

/// The text of all lines but the last, each with its line feed, and then the
/// last line, is the joined text.
pub proof fn lemma_join_before_last(lines: Seq<Seq<ElementView>>)
    requires
        lines.len() > 0,
    ensures
        join_lines(lines) == join_before(lines, lines.len() - 1) + line_text(lines.last()),
    decreases lines.len(),
{
    if lines.len() == 1 {
        assert(join_before(lines, 0) + line_text(lines.last()) =~= line_text(lines[0]));
    } else {
        let front = lines.drop_last();
        lemma_join_before_last(front);
        lemma_join_before_same(lines, front, front.len() - 1);
        assert(join_lines(lines) =~= join_before(lines, lines.len() - 1) + line_text(lines.last()));
    }
}

/// The text before line `n` depends on the lines before `n` alone.
pub proof fn lemma_join_before_same(a: Seq<Seq<ElementView>>, b: Seq<Seq<ElementView>>, n: int)
    requires
        0 <= n <= a.len(),
        n <= b.len(),
        forall|i: int| 0 <= i < n ==> a[i] == b[i],
    ensures
        join_before(a, n) == join_before(b, n),
    decreases n,
{
    if n > 0 {
        lemma_join_before_same(a, b, n - 1);
    }
}

/// The text of a line.
pub fn line_string(line: &Vec<Element>) -> (r: String)
    ensures
        r@ == line_text(line_view(*line)),
{
    let mut r = String::new();
    let mut i: usize = 0;
    let ghost v = line_view(*line);
    assert(v.take(0) =~= Seq::<ElementView>::empty());
    while i < line.len()
        invariant
            i <= line.len(),
            v == line_view(*line),
            r@ == line_text(v.take(i as int)),
        decreases line.len() - i,
    {
        r.append(line[i].content.as_str());
        proof {
            assert(v.take(i + 1).drop_last() =~= v.take(i as int));
            assert(v.take(i + 1).last() == line[i as int]@);
        }
        i += 1;
    }
    assert(v.take(line.len() as int) =~= v);
    r
}

/// The characters of a line.
pub fn line_chars(line: &Vec<Element>) -> (r: Vec<char>)
    ensures
        r@ == line_text(line_view(*line)),
{
    let s = line_string(line);
    crate::text::to_chars(s.as_str())
}

/// Whether no item of `a` is an array or an object.
pub fn items_all_scalar(a: &ValueArray) -> (r: bool)
    ensures
        r == all_scalar(a@),
{
    let mut i: usize = 0;
    while i < a.arr.len()
        invariant
            i <= a.arr.len(),
            forall|j: int| 0 <= j < i ==> !is_container(#[trigger] a@[j]),
        decreases a.arr.len() - i,
    {
        if value_is_container(&a.arr[i]) {
            assert(is_container(a@[i as int]));
            return false;
        }
        i += 1;
    }
    true
}

/// Whether no member of `o` has an array or an object as its value.
pub fn members_all_scalar(o: &ValueObject) -> (r: bool)
    ensures
        r == all_scalar(member_values(o@)),
{
    let mut i: usize = 0;
    while i < o.map.len()
        invariant
            i <= o.map.len(),
            forall|j: int| 0 <= j < i ==> !is_container(#[trigger] member_values(o@)[j]),
        decreases o.map.len() - i,
    {
        if value_is_container(&o.map[i].1) {
            assert(is_container(member_values(o@)[i as int]));
            return false;
        }
        i += 1;
    }
    true
}

/// Laying out one more piece places it after the others.
pub proof fn lemma_layout_push(
    lines: Seq<Seq<ElementView>>,
    done: Seq<Piece>,
    p: Piece,
    indent_text: Seq<char>,
)
    ensures
        layout(lines, done.push(p), indent_text) == place(
            layout(lines, done, indent_text),
            p,
            indent_text,
        ),
{
    assert(done.push(p).drop_last() =~= done);
}

/// The number of breaks among `pieces`.
pub open spec fn breaks(pieces: Seq<Piece>) -> nat
    decreases pieces.len(),
{
    if pieces.len() == 0 {
        0
    } else {
        breaks(pieces.drop_last()) + if pieces.last() is Break {
            1nat
        } else {
            0nat
        }
    }
}

/// Laying pieces out starts one line for each break among them.
pub proof fn lemma_layout_lines(lines: Seq<Seq<ElementView>>, pieces: Seq<Piece>, indent_text: Seq<char>)
    ensures
        layout(lines, pieces, indent_text).len() == lines.len() + breaks(pieces),
    decreases pieces.len(),
{
    if pieces.len() > 0 {
        lemma_layout_lines(lines, pieces.drop_last(), indent_text);
    }
}

/// The breaks of `a + b` are those of `a` and those of `b`.
pub proof fn lemma_breaks_concat(a: Seq<Piece>, b: Seq<Piece>)
    ensures
        breaks(a + b) == breaks(a) + breaks(b),
    decreases b.len(),
{
    if b.len() == 0 {
        assert(a + b =~= a);
    } else {
        lemma_breaks_concat(a, b.drop_last());
        assert((a + b).drop_last() =~= a + b.drop_last());
        assert((a + b).last() == b.last());
    }
}

/// A scalar is written without a break.
pub proof fn lemma_scalar_breaks(v: ValueView, indent: nat)
    requires
        !is_container(v),
    ensures
        breaks(value_pieces(v, indent)) == 0,
{
    match v {
        ValueView::Null => lemma_breaks_one(Piece::Item(null_element())),
        ValueView::Bool(b) => lemma_breaks_one(Piece::Item(bool_element(b))),
        ValueView::Number(s) => lemma_breaks_one(Piece::Item(number_element(s))),
        ValueView::String(s) => lemma_breaks_one(Piece::Item(string_element(s))),
        _ => {},
    }
}

/// The first `n` of scalar items are written with no break in a compact
/// array, and with one break each in an expanded one.
pub proof fn lemma_scalar_items_breaks(items: Seq<ValueView>, n: nat, indent: nat, expanded: bool)
    requires
        all_scalar(items),
        n <= items.len(),
    ensures
        breaks(items_pieces(items, n, indent, expanded)) == if expanded {
            n
        } else {
            0
        },
    decreases n,
{
    if n > 0 {
        lemma_scalar_items_breaks(items, (n - 1) as nat, indent, expanded);
        let before = items_pieces(items, (n - 1) as nat, indent, expanded);
        let child = value_pieces(items[n - 1], child_indent(indent, expanded));
        let after = after_child(n - 1, items.len() as int, indent, expanded);
        lemma_scalar_breaks(items[n - 1], child_indent(indent, expanded));
        lemma_breaks_concat(before, child);
        lemma_breaks_concat(before + child, after);
        lemma_after_child_breaks(n - 1, items.len() as int, indent, expanded);
    }
}

/// What follows a child holds one break in an expanded container and none
/// in a compact one.
pub proof fn lemma_after_child_breaks(i: int, n: int, indent: nat, expanded: bool)
    ensures
        breaks(after_child(i, n, indent, expanded)) == if expanded {
            1nat
        } else {
            0nat
        },
{
    let comma = if i + 1 != n {
        seq![Piece::Item(comma_element())]
    } else {
        Seq::empty()
    };
    let depth: nat = if i + 1 == n {
        indent
    } else {
        indent + 1
    };
    let line = if expanded {
        seq![Piece::Break(depth)]
    } else {
        Seq::empty()
    };
    lemma_breaks_concat(comma, line);
    lemma_breaks_one(Piece::Item(comma_element()));
    lemma_breaks_one(Piece::Break(depth));
    assert(breaks(Seq::<Piece>::empty()) == 0);
}

/// The lines of an array of scalars: with fewer than five items it stays on
/// the line on which it starts; with five or more it takes a line for its
/// opening bracket, one for each item, and one for its closing bracket.
pub proof fn lemma_scalar_array_lines(
    lines: Seq<Seq<ElementView>>,
    items: Seq<ValueView>,
    indent: nat,
    indent_text: Seq<char>,
)
    requires
        all_scalar(items),
    ensures
        layout(
            lines,
            value_pieces(ValueView::Array { collapse: false, items }, indent),
            indent_text,
        ).len() == lines.len() + if items.len() < 5 {
            0
        } else {
            items.len() + 1
        },
{
    let e = array_expanded(items);
    let open = opening(open_bracket_element(), indent, e);
    let body = items_pieces(items, items.len(), indent, e);
    let close = seq![Piece::Item(close_bracket_element())];
    let pieces = value_pieces(ValueView::Array { collapse: false, items }, indent);
    lemma_layout_lines(lines, pieces, indent_text);
    lemma_scalar_items_breaks(items, items.len(), indent, e);
    lemma_breaks_concat(open, body);
    lemma_breaks_concat(open + body, close);
    assert(pieces == open + body + close);
    lemma_breaks_one(Piece::Item(close_bracket_element()));
    lemma_breaks_one(Piece::Item(open_bracket_element()));
    if e {
        assert(open.drop_last() =~= seq![Piece::Item(open_bracket_element())]);
    }
}

/// The breaks of a single piece.
pub proof fn lemma_breaks_one(p: Piece)
    ensures
        breaks(seq![p]) == if p is Break {
            1nat
        } else {
            0nat
        },
{
    assert(seq![p].drop_last() =~= Seq::<Piece>::empty());
    assert(breaks(Seq::<Piece>::empty()) == 0);
    assert(seq![p].last() == p);
}

/// An array that holds a container is expanded, however few items it has.
pub proof fn lemma_nested_array_expanded(items: Seq<ValueView>, i: int)
    requires
        0 <= i < items.len(),
        is_container(items[i]),
    ensures
        array_expanded(items),
{
}

/// The bracket that closes an expanded array stands on a line of its own at
/// the depth of the array.
pub proof fn lemma_expanded_array_closes(
    lines: Seq<Seq<ElementView>>,
    items: Seq<ValueView>,
    indent: nat,
    indent_text: Seq<char>,
)
    requires
        array_expanded(items),
    ensures
        layout(
            lines,
            value_pieces(ValueView::Array { collapse: false, items }, indent),
            indent_text,
        ).last() == fresh_line(indent, indent_text).push(close_bracket_element()),
{
    let n = items.len();
    assert(n > 0) by {
        if n == 0 {
            assert(all_scalar(items));
        }
    }
    let open = opening(open_bracket_element(), indent, true);
    let before = items_pieces(items, (n - 1) as nat, indent, true);
    let child = value_pieces(items[n - 1], child_indent(indent, true));
    let pieces = value_pieces(ValueView::Array { collapse: false, items }, indent);
    let front = open + (before + child);
    assert(after_child(n - 1, n as int, indent, true) =~= seq![Piece::Break(indent)]);
    assert(pieces =~= front.push(Piece::Break(indent)).push(Piece::Item(close_bracket_element())));
    lemma_layout_push(
        lines,
        front.push(Piece::Break(indent)),
        Piece::Item(close_bracket_element()),
        indent_text,
    );
    lemma_layout_push(lines, front, Piece::Break(indent), indent_text);
}

} // verus!
