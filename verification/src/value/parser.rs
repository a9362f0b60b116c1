//! The parser: it reads the text of a document into a tree and keeps the
//! text of numbers and of strings as it stands.
//!
//! ```text
//! document = ws value ws
//! value    = object | array | string | number | "true" | "false" | "null"
//! object   = "{" ws "}" | "{" ws member (ws "," ws member)* ws "}"
//! member   = string ws ":" ws value
//! array    = "[" ws "]" | "[" ws value (ws "," ws value)* ws "]"
//! string   = '"' char* '"'
//! char     = any character but '"' and '\'
//!          | '\' ('"' | '\' | '/' | 'b' | 'f' | 'n' | 'r' | 't')
//!          | '\' 'u' hex hex hex hex
//! number   = "-"? ("0" | digit1-9 digit*) ("." digit*)? (("e" | "E") ("+" | "-")? digit+)?
//! ws       = (" " | tab | carriage return | line feed)*
//! ```

use super::{items_view, member, members_view, MemberView, Value, ValueArray, ValueObject, ValueView};
use crate::text::{from_chars, to_chars};
use vstd::prelude::*;

verus! {

/// What the parser looked for where it stopped.
#[derive(Debug, Clone, Copy, PartialEq, Eq, Structural)]
pub enum Expected {
    /// The start of a value.
    Value,
    /// The double quote that starts the name of a member.
    Name,
    /// The colon after the name of a member.
    Colon,
    /// A comma or the bracket that closes the array.
    CommaOrBracket,
    /// A comma or the brace that closes the object.
    CommaOrBrace,
    /// The double quote that closes a string.
    Quote,
    /// A character that may follow a backslash.
    Escape,
    /// A hexadecimal digit.
    HexDigit,
    /// A digit.
    Digit,
    /// The end of the text.
    End,
}

/// Why a text is no document: where the parser stopped, counted in
/// characters, and what it looked for there.
#[derive(Debug, Clone, Copy, PartialEq, Eq, Structural)]
pub struct ParseError {
    pub position: usize,
    pub expected: Expected,
}

/// A parse error as a plain value.
pub struct ParseErrorView {
    pub position: int,
    pub expected: Expected,
}

impl View for ParseError {
    type V = ParseErrorView;

    open spec fn view(&self) -> ParseErrorView {
        ParseErrorView { position: self.position as int, expected: self.expected }
    }
}

pub open spec fn error_at(position: int, expected: Expected) -> ParseErrorView {
    ParseErrorView { position, expected }
}

/// A value that was read, and the number of characters that it took.
pub struct Parsed {
    pub value: ValueView,
    pub len: nat,
}

pub open spec fn parsed(value: ValueView, len: nat) -> Parsed {
    Parsed { value, len }
}

/// The items of an array that were read, and the number of characters from
/// the first item to the closing bracket.
pub struct ParsedItems {
    pub items: Seq<ValueView>,
    pub len: nat,
}

pub open spec fn parsed_items(items: Seq<ValueView>, len: nat) -> ParsedItems {
    ParsedItems { items, len }
}

/// The members of an object that were read, and the number of characters
/// from the first member to the closing brace.
pub struct ParsedMembers {
    pub members: Seq<MemberView>,
    pub len: nat,
}

pub open spec fn parsed_members(members: Seq<MemberView>, len: nat) -> ParsedMembers {
    ParsedMembers { members, len }
}

pub open spec fn is_ws(c: char) -> bool {
    c == ' ' || c == '\t' || c == '\r' || c == '\n'
}

pub open spec fn is_digit(c: char) -> bool {
    '0' <= c && c <= '9'
}

pub open spec fn is_hex_digit(c: char) -> bool {
    is_digit(c) || ('a' <= c && c <= 'f') || ('A' <= c && c <= 'F')
}

/// The characters that may follow a backslash, but for `u`.
pub open spec fn is_simple_escape(c: char) -> bool {
    c == '"' || c == '\\' || c == '/' || c == 'b' || c == 'f' || c == 'n' || c == 'r' || c == 't'
}

/// The length of the run of white space that starts at `i`.
pub open spec fn ws_run(s: Seq<char>, i: int) -> nat
    decreases s.len() - i,
{
    if 0 <= i < s.len() && is_ws(s[i]) {
        1 + ws_run(s, i + 1)
    } else {
        0
    }
}

/// The length of the run of digits that starts at `i`.
pub open spec fn digit_run(s: Seq<char>, i: int) -> nat
    decreases s.len() - i,
{
    if 0 <= i < s.len() && is_digit(s[i]) {
        1 + digit_run(s, i + 1)
    } else {
        0
    }
}

/// Whether `s` holds the character `c` at `i`.
pub open spec fn has_char(s: Seq<char>, i: int, c: char) -> bool {
    0 <= i < s.len() && s[i] == c
}

/// Whether `s` holds a digit at `i`.
pub open spec fn has_digit(s: Seq<char>, i: int) -> bool {
    0 <= i < s.len() && is_digit(s[i])
}

/// Whether `s` holds the characters of `word` from `i` on.
pub open spec fn has_word(s: Seq<char>, i: int, word: Seq<char>) -> bool {
    0 <= i && i + word.len() <= s.len() && s.subrange(i, i + word.len()) == word
}

/// The length of the exponent that starts at `i`, and 0 where none does: an
/// `e` or `E`, a sign or none, and one digit or more.
pub open spec fn exponent_len(s: Seq<char>, i: int) -> nat {
    if has_char(s, i, 'e') || has_char(s, i, 'E') {
        let sign: nat = if has_char(s, i + 1, '+') || has_char(s, i + 1, '-') {
            1
        } else {
            0
        };
        if has_digit(s, i + 1 + sign) {
            1 + sign + digit_run(s, i + 1 + sign)
        } else {
            0
        }
    } else {
        0
    }
}

/// The length of the fraction that starts at `i`, and 0 where none does: a
/// point and the digits after it.
pub open spec fn fraction_len(s: Seq<char>, i: int) -> nat {
    if has_char(s, i, '.') {
        1 + digit_run(s, i + 1)
    } else {
        0
    }
}

/// The length of the number that starts at `i`.
pub open spec fn number_len(s: Seq<char>, i: int) -> Result<nat, ParseErrorView> {
    let sign: nat = if has_char(s, i, '-') {
        1
    } else {
        0
    };
    if !has_digit(s, i + sign) {
        Err(error_at(i + sign, Expected::Digit))
    } else {
        let whole: nat = if s[i + sign] == '0' {
            1
        } else {
            digit_run(s, i + sign)
        };
        let fraction = fraction_len(s, i + sign + whole);
        let exponent = exponent_len(s, i + sign + whole + fraction);
        Ok(sign + whole + fraction + exponent)
    }
}

/// One character more in front of what was counted.
pub open spec fn longer(r: Result<nat, ParseErrorView>, by: nat) -> Result<nat, ParseErrorView> {
    match r {
        Ok(n) => Ok(n + by),
        Err(e) => Err(e),
    }
}

/// The number of characters from `i` to the double quote that closes the
/// string.
pub open spec fn string_len(s: Seq<char>, i: int) -> Result<nat, ParseErrorView>
    decreases s.len() - i,
{
    if i < 0 || i >= s.len() {
        Err(error_at(i, Expected::Quote))
    } else if s[i] == '"' {
        Ok(0)
    } else if s[i] != '\\' {
        longer(string_len(s, i + 1), 1)
    } else if i + 1 < s.len() && is_simple_escape(s[i + 1]) {
        longer(string_len(s, i + 2), 2)
    } else if i + 1 < s.len() && s[i + 1] == 'u' {
        if !(i + 2 < s.len() && is_hex_digit(s[i + 2])) {
            Err(error_at(i + 2, Expected::HexDigit))
        } else if !(i + 3 < s.len() && is_hex_digit(s[i + 3])) {
            Err(error_at(i + 3, Expected::HexDigit))
        } else if !(i + 4 < s.len() && is_hex_digit(s[i + 4])) {
            Err(error_at(i + 4, Expected::HexDigit))
        } else if !(i + 5 < s.len() && is_hex_digit(s[i + 5])) {
            Err(error_at(i + 5, Expected::HexDigit))
        } else {
            longer(string_len(s, i + 6), 6)
        }
    } else {
        Err(error_at(i + 1, Expected::Escape))
    }
}

pub open spec fn word_true() -> Seq<char> {
    seq!['t', 'r', 'u', 'e']
}

pub open spec fn word_false() -> Seq<char> {
    seq!['f', 'a', 'l', 's', 'e']
}

pub open spec fn word_null() -> Seq<char> {
    seq!['n', 'u', 'l', 'l']
}

/// The number of characters of `s` from `i` on.
pub open spec fn left(s: Seq<char>, i: int) -> nat {
    if 0 <= i <= s.len() {
        (s.len() - i) as nat
    } else {
        0
    }
}

/// The value that starts at `i`.
pub open spec fn value_at(s: Seq<char>, i: int) -> Result<Parsed, ParseErrorView>
    decreases left(s, i), 0nat,
{
    if i < 0 || i >= s.len() {
        Err(error_at(i, Expected::Value))
    } else if s[i] == '{' {
        let ws = ws_run(s, i + 1);
        if has_char(s, i + 1 + ws, '}') {
            Ok(parsed(ValueView::Object { collapse: false, members: Seq::empty() }, 1 + ws + 1))
        } else {
            match members_at(s, i + 1 + ws, Seq::empty()) {
                Ok(p) => Ok(
                    parsed(
                        ValueView::Object { collapse: false, members: p.members },
                        1 + ws + p.len,
                    ),
                ),
                Err(e) => Err(e),
            }
        }
    } else if s[i] == '[' {
        let ws = ws_run(s, i + 1);
        if has_char(s, i + 1 + ws, ']') {
            Ok(parsed(ValueView::Array { collapse: false, items: Seq::empty() }, 1 + ws + 1))
        } else {
            match items_at(s, i + 1 + ws, Seq::empty()) {
                Ok(p) => Ok(
                    parsed(ValueView::Array { collapse: false, items: p.items }, 1 + ws + p.len),
                ),
                Err(e) => Err(e),
            }
        }
    } else if s[i] == '"' {
        match string_len(s, i + 1) {
            Ok(n) => Ok(parsed(ValueView::String(s.subrange(i + 1, i + 1 + n)), n + 2)),
            Err(e) => Err(e),
        }
    } else if s[i] == '-' || is_digit(s[i]) {
        match number_len(s, i) {
            Ok(n) => Ok(parsed(ValueView::Number(s.subrange(i, i + n)), n)),
            Err(e) => Err(e),
        }
    } else if has_word(s, i, word_true()) {
        Ok(parsed(ValueView::Bool(true), 4))
    } else if has_word(s, i, word_false()) {
        Ok(parsed(ValueView::Bool(false), 5))
    } else if has_word(s, i, word_null()) {
        Ok(parsed(ValueView::Null, 4))
    } else {
        Err(error_at(i, Expected::Value))
    }
}

/// The items of an array from the item that starts at `i` on, after the
/// items `acc`.
pub open spec fn items_at(s: Seq<char>, i: int, acc: Seq<ValueView>) -> Result<
    ParsedItems,
    ParseErrorView,
>
    decreases left(s, i), 1nat,
{
    if i < 0 || i >= s.len() {
        Err(error_at(i, Expected::Value))
    } else {
        match value_at(s, i) {
            Err(e) => Err(e),
            Ok(p) => {
                let sep = p.len + ws_run(s, i + p.len);
                if has_char(s, i + sep, ',') {
                    let next = sep + 1 + ws_run(s, i + sep + 1);
                    match items_at(s, i + next, acc.push(p.value)) {
                        Ok(r) => Ok(parsed_items(r.items, next + r.len)),
                        Err(e) => Err(e),
                    }
                } else if has_char(s, i + sep, ']') {
                    Ok(parsed_items(acc.push(p.value), sep + 1))
                } else {
                    Err(error_at(i + sep, Expected::CommaOrBracket))
                }
            },
        }
    }
}

/// The members of an object from the member that starts at `i` on, after
/// the members `acc`.
pub open spec fn members_at(s: Seq<char>, i: int, acc: Seq<MemberView>) -> Result<
    ParsedMembers,
    ParseErrorView,
>
    decreases left(s, i), 1nat,
{
    if !has_char(s, i, '"') {
        Err(error_at(i, Expected::Name))
    } else {
        match string_len(s, i + 1) {
            Err(e) => Err(e),
            Ok(n) => {
                let colon = n + 2 + ws_run(s, i + n + 2);
                if !has_char(s, i + colon, ':') {
                    Err(error_at(i + colon, Expected::Colon))
                } else {
                    let start = colon + 1 + ws_run(s, i + colon + 1);
                    match value_at(s, i + start) {
                        Err(e) => Err(e),
                        Ok(p) => {
                            let entry = member(s.subrange(i + 1, i + 1 + n), p.value);
                            let sep = start + p.len + ws_run(s, i + start + p.len);
                            if has_char(s, i + sep, ',') {
                                let next = sep + 1 + ws_run(s, i + sep + 1);
                                match members_at(s, i + next, acc.push(entry)) {
                                    Ok(r) => Ok(parsed_members(r.members, next + r.len)),
                                    Err(e) => Err(e),
                                }
                            } else if has_char(s, i + sep, '}') {
                                Ok(parsed_members(acc.push(entry), sep + 1))
                            } else {
                                Err(error_at(i + sep, Expected::CommaOrBrace))
                            }
                        },
                    }
                }
            },
        }
    }
}

/// The tree of the document `s`, or why `s` is none.
pub open spec fn parse_spec(s: Seq<char>) -> Result<ValueView, ParseErrorView> {
    let start = ws_run(s, 0) as int;
    match value_at(s, start) {
        Err(e) => Err(e),
        Ok(p) => {
            let end = start + p.len + ws_run(s, start + p.len);
            if end == s.len() {
                Ok(p.value)
            } else {
                Err(error_at(end, Expected::End))
            }
        },
    }
}

/// The items that were read, with `by` characters more in front of them.
pub open spec fn rebase_items(r: Result<ParsedItems, ParseErrorView>, by: nat) -> Result<
    ParsedItems,
    ParseErrorView,
> {
    match r {
        Ok(p) => Ok(parsed_items(p.items, p.len + by)),
        Err(e) => Err(e),
    }
}

/// The members that were read, with `by` characters more in front of them.
pub open spec fn rebase_members(r: Result<ParsedMembers, ParseErrorView>, by: nat) -> Result<
    ParsedMembers,
    ParseErrorView,
> {
    match r {
        Ok(p) => Ok(parsed_members(p.members, p.len + by)),
        Err(e) => Err(e),
    }
}

fn is_ws_char(c: char) -> (r: bool)
    ensures
        r == is_ws(c),
{
    c == ' ' || c == '\t' || c == '\r' || c == '\n'
}

fn is_digit_char(c: char) -> (r: bool)
    ensures
        r == is_digit(c),
{
    '0' <= c && c <= '9'
}

fn is_hex_char(c: char) -> (r: bool)
    ensures
        r == is_hex_digit(c),
{
    ('0' <= c && c <= '9') || ('a' <= c && c <= 'f') || ('A' <= c && c <= 'F')
}

fn is_simple_escape_char(c: char) -> (r: bool)
    ensures
        r == is_simple_escape(c),
{
    c == '"' || c == '\\' || c == '/' || c == 'b' || c == 'f' || c == 'n' || c == 'r' || c == 't'
}

/// The place after the white space that starts at `i`.
fn skip_ws(s: &Vec<char>, i: usize) -> (r: usize)
    requires
        i <= s.len(),
    ensures
        r == i + ws_run(s@, i as int),
        r <= s.len(),
{
    let mut j: usize = i;
    while j < s.len() && is_ws_char(s[j])
        invariant
            i <= j <= s.len(),
            i + ws_run(s@, i as int) == j + ws_run(s@, j as int),
        decreases s.len() - j,
    {
        j += 1;
    }
    j
}

/// The place after the digits that start at `i`.
fn skip_digits(s: &Vec<char>, i: usize) -> (r: usize)
    requires
        i <= s.len(),
    ensures
        r == i + digit_run(s@, i as int),
        r <= s.len(),
{
    let mut j: usize = i;
    while j < s.len() && is_digit_char(s[j])
        invariant
            i <= j <= s.len(),
            i + digit_run(s@, i as int) == j + digit_run(s@, j as int),
        decreases s.len() - j,
    {
        j += 1;
    }
    j
}

/// Whether `s` holds `c` at `i`.
fn holds(s: &Vec<char>, i: usize, c: char) -> (r: bool)
    ensures
        r == has_char(s@, i as int, c),
{
    i < s.len() && s[i] == c
}

/// Whether `s` holds a digit at `i`.
fn holds_digit(s: &Vec<char>, i: usize) -> (r: bool)
    ensures
        r == has_digit(s@, i as int),
{
    i < s.len() && is_digit_char(s[i])
}

/// The place after the number that starts at `i`.
fn scan_number(s: &Vec<char>, i: usize) -> (r: Result<usize, ParseError>)
    requires
        i < s.len(),
    ensures
        match number_len(s@, i as int) {
            Ok(n) => r == Ok::<usize, ParseError>((i + n) as usize) && i + n <= s.len() && n > 0,
            Err(e) => r is Err && r->Err_0@ == e,
        },
{
    let mut j: usize = i;
    if s[j] == '-' {
        j += 1;
    }
    if !holds_digit(s, j) {
        return Err(ParseError { position: j, expected: Expected::Digit });
    }
    if s[j] == '0' {
        j += 1;
    } else {
        j = skip_digits(s, j);
    }
    if holds(s, j, '.') {
        j = skip_digits(s, j + 1);
    }
    if holds(s, j, 'e') || holds(s, j, 'E') {
        let mut k: usize = j + 1;
        if holds(s, k, '+') || holds(s, k, '-') {
            k += 1;
        }
        if holds_digit(s, k) {
            j = skip_digits(s, k);
        }
    }
    Ok(j)
}

/// The place of the double quote that closes the string whose text starts
/// at `i`.
fn scan_string(s: &Vec<char>, i: usize) -> (r: Result<usize, ParseError>)
    requires
        i <= s.len(),
    ensures
        match string_len(s@, i as int) {
            Ok(n) => r == Ok::<usize, ParseError>((i + n) as usize) && i + n < s.len(),
            Err(e) => r is Err && r->Err_0@ == e,
        },
{
    let mut j: usize = i;
    while j < s.len()
        invariant
            i <= j <= s.len(),
            string_len(s@, i as int) == longer(string_len(s@, j as int), (j - i) as nat),
        decreases s.len() - j,
    {
        let c = s[j];
        if c == '"' {
            return Ok(j);
        } else if c != '\\' {
            j += 1;
        } else if j + 1 < s.len() && is_simple_escape_char(s[j + 1]) {
            j += 2;
        } else if j + 1 < s.len() && s[j + 1] == 'u' {
            if !(j + 2 < s.len() && is_hex_char(s[j + 2])) {
                return Err(ParseError { position: j + 2, expected: Expected::HexDigit });
            }
            if !(j + 3 < s.len() && is_hex_char(s[j + 3])) {
                return Err(ParseError { position: j + 3, expected: Expected::HexDigit });
            }
            if !(j + 4 < s.len() && is_hex_char(s[j + 4])) {
                return Err(ParseError { position: j + 4, expected: Expected::HexDigit });
            }
            if !(j + 5 < s.len() && is_hex_char(s[j + 5])) {
                return Err(ParseError { position: j + 5, expected: Expected::HexDigit });
            }
            j += 6;
        } else {
            return Err(ParseError { position: j + 1, expected: Expected::Escape });
        }
    }
    Err(ParseError { position: j, expected: Expected::Quote })
}

/// Whether `s` holds the four characters from `i` on.
fn holds_four(s: &Vec<char>, i: usize, a: char, b: char, c: char, d: char) -> (r: bool)
    requires
        i <= s.len(),
    ensures
        r == has_word(s@, i as int, seq![a, b, c, d]),
{
    if s.len() - i < 4 {
        return false;
    }
    let r = s[i] == a && s[i + 1] == b && s[i + 2] == c && s[i + 3] == d;
    proof {
        let w = s@.subrange(i as int, i + 4);
        assert(w[0] == s@[i as int] && w[1] == s@[i + 1] && w[2] == s@[i + 2] && w[3] == s@[i + 3]);
        if r {
            assert(w =~= seq![a, b, c, d]);
        } else {
            assert(seq![a, b, c, d][0] == a && seq![a, b, c, d][1] == b && seq![a, b, c, d][2] == c
                && seq![a, b, c, d][3] == d);
        }
    }
    r
}

/// Whether `s` holds `false` from `i` on.
fn holds_false(s: &Vec<char>, i: usize) -> (r: bool)
    requires
        i <= s.len(),
    ensures
        r == has_word(s@, i as int, word_false()),
{
    if s.len() - i < 5 {
        return false;
    }
    let r = s[i] == 'f' && s[i + 1] == 'a' && s[i + 2] == 'l' && s[i + 3] == 's' && s[i + 4]
        == 'e';
    proof {
        let w = s@.subrange(i as int, i + 5);
        assert(w[0] == s@[i as int] && w[1] == s@[i + 1] && w[2] == s@[i + 2] && w[3] == s@[i + 3]
            && w[4] == s@[i + 4]);
        if r {
            assert(w =~= word_false());
        } else {
            assert(word_false()[0] == 'f' && word_false()[1] == 'a' && word_false()[2] == 'l'
                && word_false()[3] == 's' && word_false()[4] == 'e');
        }
    }
    r
}

/// Reads the items of an array from the first item, which starts at `first`,
/// to the closing bracket, and says where the array ends.
fn parse_items(s: &Vec<char>, first: usize) -> (r: Result<(Vec<Value>, usize), ParseError>)
    requires
        first <= s.len(),
    ensures
        match items_at(s@, first as int, Seq::empty()) {
            Ok(p) => r is Ok && items_view(r->Ok_0.0) == p.items && r->Ok_0.1 == first + p.len
                && first + p.len <= s.len(),
            Err(e) => r is Err && r->Err_0@ == e,
        },
    decreases s.len() - first, 1nat,
{
    let mut items: Vec<Value> = Vec::new();
    let mut pos: usize = first;
    assert(items_view(items) =~= Seq::<ValueView>::empty());
    loop
        invariant
            first <= pos <= s.len(),
            items_at(s@, first as int, Seq::empty()) == rebase_items(
                items_at(s@, pos as int, items_view(items)),
                (pos - first) as nat,
            ),
        decreases s.len() - pos,
    {
        let (value, end) = match parse_value(s, pos) {
            Ok(x) => x,
            Err(e) => {
                return Err(e);
            },
        };
        let ghost before = items_view(items);
        let ghost item = value@;
        items.push(value);
        assert(items_view(items) =~= before.push(item));
        let sep = skip_ws(s, end);
        if holds(s, sep, ',') {
            pos = skip_ws(s, sep + 1);
        } else if holds(s, sep, ']') {
            return Ok((items, sep + 1));
        } else {
            return Err(ParseError { position: sep, expected: Expected::CommaOrBracket });
        }
    }
}

/// Reads the members of an object from the first member, which starts at
/// `first`, to the closing brace, and says where the object ends.
fn parse_members(s: &Vec<char>, first: usize) -> (r: Result<
    (Vec<(String, Value)>, usize),
    ParseError,
>)
    requires
        first <= s.len(),
    ensures
        match members_at(s@, first as int, Seq::empty()) {
            Ok(p) => r is Ok && members_view(r->Ok_0.0) == p.members && r->Ok_0.1 == first + p.len
                && first + p.len <= s.len(),
            Err(e) => r is Err && r->Err_0@ == e,
        },
    decreases s.len() - first, 1nat,
{
    let mut members: Vec<(String, Value)> = Vec::new();
    let mut pos: usize = first;
    assert(members_view(members) =~= Seq::<MemberView>::empty());
    loop
        invariant
            first <= pos <= s.len(),
            members_at(s@, first as int, Seq::empty()) == rebase_members(
                members_at(s@, pos as int, members_view(members)),
                (pos - first) as nat,
            ),
        decreases s.len() - pos,
    {
        if !holds(s, pos, '"') {
            return Err(ParseError { position: pos, expected: Expected::Name });
        }
        let quote = match scan_string(s, pos + 1) {
            Ok(q) => q,
            Err(e) => {
                return Err(e);
            },
        };
        let name = from_chars(s, pos + 1, quote);
        let colon = skip_ws(s, quote + 1);
        if !holds(s, colon, ':') {
            return Err(ParseError { position: colon, expected: Expected::Colon });
        }
        let start = skip_ws(s, colon + 1);
        let (value, end) = match parse_value(s, start) {
            Ok(x) => x,
            Err(e) => {
                return Err(e);
            },
        };
        let ghost before = members_view(members);
        let ghost entry = member(name@, value@);
        members.push((name, value));
        assert(members_view(members) =~= before.push(entry));
        let sep = skip_ws(s, end);
        if holds(s, sep, ',') {
            pos = skip_ws(s, sep + 1);
        } else if holds(s, sep, '}') {
            return Ok((members, sep + 1));
        } else {
            return Err(ParseError { position: sep, expected: Expected::CommaOrBrace });
        }
    }
}

/// Reads the value that starts at `i`, and says where it ends.
pub fn parse_value(s: &Vec<char>, i: usize) -> (r: Result<(Value, usize), ParseError>)
    requires
        i <= s.len(),
    ensures
        match value_at(s@, i as int) {
            Ok(p) => r is Ok && r->Ok_0.0@ == p.value && r->Ok_0.1 == i + p.len && i + p.len
                <= s.len() && p.len > 0,
            Err(e) => r is Err && r->Err_0@ == e,
        },
    decreases s.len() - i, 0nat,
{
    if i >= s.len() {
        return Err(ParseError { position: i, expected: Expected::Value });
    }
    let c = s[i];
    if c == '{' {
        let first = skip_ws(s, i + 1);
        if holds(s, first, '}') {
            let o = ValueObject { collapse: false, map: Vec::new() };
            assert(o@ =~= Seq::<MemberView>::empty());
            return Ok((Value::Object(o), first + 1));
        }
        match parse_members(s, first) {
            Ok((members, end)) => Ok(
                (Value::Object(ValueObject { collapse: false, map: members }), end),
            ),
            Err(e) => Err(e),
        }
    } else if c == '[' {
        let first = skip_ws(s, i + 1);
        if holds(s, first, ']') {
            let a = ValueArray { collapse: false, arr: Vec::new() };
            assert(a@ =~= Seq::<ValueView>::empty());
            return Ok((Value::Array(a), first + 1));
        }
        match parse_items(s, first) {
            Ok((items, end)) => Ok((Value::Array(ValueArray { collapse: false, arr: items }), end)),
            Err(e) => Err(e),
        }
    } else if c == '"' {
        match scan_string(s, i + 1) {
            Ok(quote) => Ok((Value::String(from_chars(s, i + 1, quote)), quote + 1)),
            Err(e) => Err(e),
        }
    } else if c == '-' || is_digit_char(c) {
        match scan_number(s, i) {
            Ok(end) => Ok((Value::Number(from_chars(s, i, end)), end)),
            Err(e) => Err(e),
        }
    } else if holds_four(s, i, 't', 'r', 'u', 'e') {
        Ok((Value::Bool(true), i + 4))
    } else if holds_false(s, i) {
        Ok((Value::Bool(false), i + 5))
    } else if holds_four(s, i, 'n', 'u', 'l', 'l') {
        Ok((Value::Null, i + 4))
    } else {
        Err(ParseError { position: i, expected: Expected::Value })
    }
}

/// Reads a document.
///
/// The result is the tree of the one value that the text holds, with white
/// space allowed around it and between its parts. Numbers and strings keep
/// their text as it stands in `s`, strings without their quotes and with
/// their escapes as written. Every container of the tree is expanded.
/// Members with the same name are all kept, in their order. Where the text is
/// no document, the error says where the parser stopped, counted in
/// characters, and what it looked for there.
pub fn parse(s: &str) -> (r: Result<Value, ParseError>)
    ensures
        match parse_spec(s@) {
            Ok(tree) => r is Ok && r->Ok_0@ == tree,
            Err(e) => r is Err && r->Err_0@ == e,
        },
{
    let chars = to_chars(s);
    let start = skip_ws(&chars, 0);
    let (value, end) = match parse_value(&chars, start) {
        Ok(x) => x,
        Err(e) => {
            return Err(e);
        },
    };
    let last = skip_ws(&chars, end);
    if last == chars.len() {
        Ok(value)
    } else {
        Err(ParseError { position: last, expected: Expected::End })
    }
}

} // verus!
