//! Writing a document and reading it again gives the same tree.

use super::parser::{
    digit_run, exponent_len, fraction_len, has_char, has_digit, is_digit, is_simple_escape,
    is_ws, items_at, left, members_at, number_len, parse_spec, parsed, parsed_items,
    parsed_members, string_len, value_at, word_false, word_null, word_true, ws_run,
    ParseErrorView, Parsed, ParsedItems, ParsedMembers,
};
use super::writer::{
    after_child, array_expanded, bool_element, child_indent, close_brace_element,
    close_bracket_element, comma_element, fresh_line, items_pieces, join_lines, key_element,
    layout, lemma_layout_len, line_text, members_pieces, null_element, number_element,
    object_expanded, open_brace_element, open_bracket_element, opening, place, string_element,
    value_pieces, whitespace_element, ElementView, Piece,
};
use super::{document, member, MemberView, ValueView};
use vstd::prelude::*;

verus! {

/// The text of `k` levels of indentation.
pub open spec fn indentation(k: nat, indent_text: Seq<char>) -> Seq<char>
    decreases k,
{
    if k == 0 {
        Seq::empty()
    } else {
        indentation((k - 1) as nat, indent_text) + indent_text
    }
}

/// The text of one piece: the text of an element, or a line feed and the
/// indentation of the new line.
pub open spec fn piece_text(p: Piece, indent_text: Seq<char>) -> Seq<char> {
    match p {
        Piece::Item(e) => e.content,
        Piece::Break(k) => seq!['\n'] + indentation(k, indent_text),
    }
}

/// The text of `pieces`, one after another.
pub open spec fn pieces_text(pieces: Seq<Piece>, indent_text: Seq<char>) -> Seq<char>
    decreases pieces.len(),
{
    if pieces.len() == 0 {
        Seq::empty()
    } else {
        pieces_text(pieces.drop_last(), indent_text) + piece_text(pieces.last(), indent_text)
    }
}

/// The text of a line with one more element.
pub proof fn lemma_line_text_push(line: Seq<ElementView>, e: ElementView)
    ensures
        line_text(line.push(e)) == line_text(line) + e.content,
{
    assert(line.push(e).drop_last() =~= line);
}

/// The text of a fresh line is its indentation.
pub proof fn lemma_fresh_line_text(k: nat, indent_text: Seq<char>)
    ensures
        line_text(fresh_line(k, indent_text)) == indentation(k, indent_text),
    decreases k,
{
    if k > 0 {
        lemma_fresh_line_text((k - 1) as nat, indent_text);
        assert(fresh_line(k, indent_text).drop_last() =~= fresh_line((k - 1) as nat, indent_text));
        assert(fresh_line(k, indent_text).last() == whitespace_element(indent_text));
    }
}

/// Placing a piece adds its text to the text of the lines.
pub proof fn lemma_place_text(lines: Seq<Seq<ElementView>>, p: Piece, indent_text: Seq<char>)
    requires
        lines.len() > 0,
    ensures
        join_lines(place(lines, p, indent_text)) == join_lines(lines) + piece_text(p, indent_text),
{
    let after = place(lines, p, indent_text);
    match p {
        Piece::Item(e) => {
            lemma_line_text_push(lines.last(), e);
            if lines.len() == 1 {
                assert(after[0] == lines[0].push(e));
            } else {
                assert(after.drop_last() =~= lines.drop_last());
                assert(join_lines(after) =~= join_lines(lines) + e.content);
            }
        },
        Piece::Break(k) => {
            lemma_fresh_line_text(k, indent_text);
            assert(after.drop_last() =~= lines);
            assert(join_lines(after) =~= join_lines(lines) + (seq!['\n'] + indentation(
                k,
                indent_text,
            )));
        },
    }
}

/// Laying pieces out adds their text to the text of the lines.
pub proof fn lemma_layout_text(lines: Seq<Seq<ElementView>>, pieces: Seq<Piece>, indent_text: Seq<char>)
    requires
        lines.len() > 0,
    ensures
        join_lines(layout(lines, pieces, indent_text)) == join_lines(lines) + pieces_text(
            pieces,
            indent_text,
        ),
    decreases pieces.len(),
{
    if pieces.len() == 0 {
        assert(join_lines(lines) + pieces_text(pieces, indent_text) =~= join_lines(lines));
    } else {
        lemma_layout_text(lines, pieces.drop_last(), indent_text);
        lemma_layout_len(lines, pieces.drop_last(), indent_text);
        lemma_place_text(layout(lines, pieces.drop_last(), indent_text), pieces.last(), indent_text);
        assert(join_lines(layout(lines, pieces, indent_text)) =~= join_lines(lines) + pieces_text(
            pieces,
            indent_text,
        ));
    }
}

/// The text of `a + b` is the text of `a` and then that of `b`.
pub proof fn lemma_pieces_text_concat(a: Seq<Piece>, b: Seq<Piece>, indent_text: Seq<char>)
    ensures
        pieces_text(a + b, indent_text) == pieces_text(a, indent_text) + pieces_text(b, indent_text),
    decreases b.len(),
{
    if b.len() == 0 {
        assert(a + b =~= a);
        assert(pieces_text(a, indent_text) + pieces_text(b, indent_text) =~= pieces_text(
            a,
            indent_text,
        ));
    } else {
        lemma_pieces_text_concat(a, b.drop_last(), indent_text);
        assert((a + b).drop_last() =~= a + b.drop_last());
        assert((a + b).last() == b.last());
        assert(pieces_text(a + b, indent_text) =~= pieces_text(a, indent_text) + pieces_text(
            b,
            indent_text,
        ));
    }
}

/// The text of a single piece.
pub proof fn lemma_pieces_text_one(p: Piece, indent_text: Seq<char>)
    ensures
        pieces_text(seq![p], indent_text) == piece_text(p, indent_text),
{
    assert(seq![p].drop_last() =~= Seq::<Piece>::empty());
    assert(pieces_text(seq![p].drop_last(), indent_text) =~= Seq::<char>::empty());
    assert(seq![p].last() == p);
    assert(pieces_text(seq![p], indent_text) =~= piece_text(p, indent_text));
}

/// The text of `v` written at depth `k`.
pub open spec fn value_text(v: ValueView, k: nat, indent_text: Seq<char>) -> Seq<char> {
    pieces_text(value_pieces(v, k), indent_text)
}

/// Four spaces.
pub open spec fn four_spaces() -> Seq<char> {
    seq![' ', ' ', ' ', ' ']
}

/// The text of the layout of `v` is the text of `v` written at depth 0.
pub proof fn lemma_document_text(v: ValueView)
    ensures
        join_lines(document(v)) == value_text(v, 0, four_spaces()),
{
    let first = seq![Seq::<ElementView>::empty()];
    lemma_layout_text(first, value_pieces(v, 0), four_spaces());
    assert(join_lines(first) =~= Seq::<char>::empty());
    assert(join_lines(first) + value_text(v, 0, four_spaces()) =~= value_text(v, 0, four_spaces()));
}

/// Whether `s` holds the text `t` from `i` on.
#[verifier::opaque]
pub open spec fn text_at(s: Seq<char>, i: int, t: Seq<char>) -> bool {
    &&& 0 <= i
    &&& i + t.len() <= s.len()
    &&& forall|k: int| 0 <= k < t.len() ==> s[i + k] == #[trigger] t[k]
}

/// Where `s` holds `a + b`, it holds `a` and, after it, `b`.
pub proof fn lemma_text_at_split(s: Seq<char>, i: int, a: Seq<char>, b: Seq<char>)
    requires
        text_at(s, i, a + b),
    ensures
        text_at(s, i, a),
        text_at(s, i + a.len(), b),
{
    reveal(text_at);
    assert forall|k: int| 0 <= k < a.len() implies s[i + k] == #[trigger] a[k] by {
        assert((a + b)[k] == a[k]);
    }
    assert forall|k: int| 0 <= k < b.len() implies s[i + a.len() + k] == #[trigger] b[k] by {
        assert((a + b)[a.len() + k] == b[k]);
    }
}

/// Whether every character of `t` is white space.
#[verifier::opaque]
pub open spec fn all_ws(t: Seq<char>) -> bool {
    forall|k: int| 0 <= k < t.len() ==> is_ws(#[trigger] t[k])
}

/// A stretch of white space that no white space follows is the run of white
/// space.
pub proof fn lemma_ws_run_exact(s: Seq<char>, i: int, m: nat)
    requires
        0 <= i,
        i + m <= s.len(),
        forall|x: int| i <= x < i + m ==> is_ws(#[trigger] s[x]),
        i + m == s.len() || !is_ws(s[i + m]),
    ensures
        ws_run(s, i) == m,
    decreases m,
{
    if m > 0 {
        assert(is_ws(s[i]));
        lemma_ws_run_exact(s, i + 1, (m - 1) as nat);
    }
}

/// Where `s` holds the white space `t` and no white space after it, the run
/// of white space is `t`.
pub proof fn lemma_ws_run_text(s: Seq<char>, i: int, t: Seq<char>)
    requires
        text_at(s, i, t),
        all_ws(t),
        i + t.len() == s.len() || !is_ws(s[i + t.len()]),
    ensures
        ws_run(s, i) == t.len(),
{
    reveal(text_at);
    reveal(all_ws);
    assert forall|x: int| i <= x < i + t.len() implies is_ws(#[trigger] s[x]) by {
        assert(s[i + (x - i)] == t[x - i]);
    }
    lemma_ws_run_exact(s, i, t.len());
}

/// The run of digits ends within the text, holds digits only, and no digit
/// follows it.
pub proof fn lemma_digit_run_bounds(s: Seq<char>, i: int)
    requires
        0 <= i,
    ensures
        i + digit_run(s, i) <= s.len() || digit_run(s, i) == 0,
        forall|x: int| i <= x < i + digit_run(s, i) ==> is_digit(#[trigger] s[x]),
        !has_digit(s, i + digit_run(s, i)),
    decreases s.len() - i,
{
    if i < s.len() && is_digit(s[i]) {
        lemma_digit_run_bounds(s, i + 1);
    }
}

/// A stretch of digits that no digit follows is the run of digits.
pub proof fn lemma_digit_run_exact(s: Seq<char>, i: int, m: nat)
    requires
        0 <= i,
        i + m <= s.len(),
        forall|x: int| i <= x < i + m ==> is_digit(#[trigger] s[x]),
        !has_digit(s, i + m),
    ensures
        digit_run(s, i) == m,
    decreases m,
{
    if m > 0 {
        assert(is_digit(s[i]));
        lemma_digit_run_exact(s, i + 1, (m - 1) as nat);
    }
}

/// Whether `b` holds from `j` on the `n` characters that `a` holds from `i`
/// on.
pub open spec fn same_text(a: Seq<char>, i: int, b: Seq<char>, j: int, n: int) -> bool {
    &&& 0 <= i
    &&& 0 <= j
    &&& i + n <= a.len()
    &&& j + n <= b.len()
    &&& forall|x: int| j <= x < j + n ==> #[trigger] b[x] == a[x - j + i]
}

/// Where `b` holds from `j` on what `a` holds from `i` on, as far as the run
/// of digits of `a` reaches, and no digit after that, the run of digits of
/// `b` is as long.
pub proof fn lemma_digit_run_same(a: Seq<char>, i: int, b: Seq<char>, j: int)
    requires
        same_text(a, i, b, j, digit_run(a, i) as int),
        !has_digit(b, j + digit_run(a, i)),
    ensures
        digit_run(b, j) == digit_run(a, i),
{
    lemma_digit_run_bounds(a, i);
    let m = digit_run(a, i);
    assert forall|x: int| j <= x < j + m implies is_digit(#[trigger] b[x]) by {
        assert(is_digit(a[x - j + i]));
    }
    lemma_digit_run_exact(b, j, m);
}

/// Whether `c` can continue a number.
pub open spec fn continues_number(c: char) -> bool {
    is_digit(c) || c == '.' || c == 'e' || c == 'E'
}

/// A number ends within the text and has a character.
pub proof fn lemma_number_bounds(s: Seq<char>, i: int)
    requires
        0 <= i,
        number_len(s, i) is Ok,
    ensures
        0 < number_len(s, i)->Ok_0,
        i + number_len(s, i)->Ok_0 <= s.len(),
{
    let sign: nat = if has_char(s, i, '-') {
        1
    } else {
        0
    };
    lemma_digit_run_bounds(s, i + sign);
    let whole: nat = if s[i + sign] == '0' {
        1
    } else {
        digit_run(s, i + sign)
    };
    lemma_digit_run_bounds(s, i + sign + whole + 1);
    let fraction = fraction_len(s, i + sign + whole);
    let at = i + sign + whole + fraction;
    lemma_digit_run_bounds(s, at + 1);
    lemma_digit_run_bounds(s, at + 2);
}

/// The length of the sign of the number at `i`.
pub open spec fn sign_len(s: Seq<char>, i: int) -> nat {
    if has_char(s, i, '-') {
        1
    } else {
        0
    }
}

/// The length of the whole part that starts at `i`.
pub open spec fn whole_len(s: Seq<char>, i: int) -> nat {
    if has_char(s, i, '0') {
        1
    } else {
        digit_run(s, i)
    }
}

/// A number is a sign, a whole part, a fraction and an exponent.
pub proof fn lemma_number_parts(s: Seq<char>, i: int)
    requires
        0 <= i,
    ensures
        has_digit(s, i + sign_len(s, i)) ==> number_len(s, i) == Ok::<nat, ParseErrorView>(
            sign_len(s, i) + whole_len(s, i + sign_len(s, i)) + fraction_len(
                s,
                i + sign_len(s, i) + whole_len(s, i + sign_len(s, i)),
            ) + exponent_len(
                s,
                i + sign_len(s, i) + whole_len(s, i + sign_len(s, i)) + fraction_len(
                    s,
                    i + sign_len(s, i) + whole_len(s, i + sign_len(s, i)),
                ),
            ),
        ),
        !has_digit(s, i + sign_len(s, i)) ==> number_len(s, i) is Err,
        has_digit(s, i + sign_len(s, i)) ==> whole_len(s, i + sign_len(s, i)) > 0,
{
}

/// Where `b` holds what `a` holds as far as the whole part of `a` reaches,
/// and no digit after that, the whole part of `b` is as long.
pub proof fn lemma_whole_same(a: Seq<char>, i: int, b: Seq<char>, j: int)
    requires
        has_digit(a, i),
        same_text(a, i, b, j, whole_len(a, i) as int),
        has_char(a, i, '0') || !has_digit(b, j + whole_len(a, i)),
    ensures
        whole_len(b, j) == whole_len(a, i),
        has_digit(b, j),
{
    lemma_digit_run_bounds(a, i);
    assert(b[j] == a[j - j + i]);
    if !has_char(a, i, '0') {
        lemma_digit_run_same(a, i, b, j);
    }
}

/// Where `b` holds what `a` holds as far as the fraction of `a` reaches, and
/// neither a digit nor, where `a` has no fraction, a point after that, the
/// fraction of `b` is as long.
pub proof fn lemma_fraction_same(a: Seq<char>, i: int, b: Seq<char>, j: int)
    requires
        same_text(a, i, b, j, fraction_len(a, i) as int),
        fraction_len(a, i) > 0 ==> !has_digit(b, j + fraction_len(a, i)),
        fraction_len(a, i) == 0 ==> !has_char(b, j, '.'),
    ensures
        fraction_len(b, j) == fraction_len(a, i),
{
    if fraction_len(a, i) > 0 {
        assert(b[j] == a[j - j + i]);
        lemma_digit_run_bounds(a, i + 1);
        assert(same_text(a, i + 1, b, j + 1, digit_run(a, i + 1) as int)) by {
            assert forall|x: int| j + 1 <= x < j + 1 + digit_run(a, i + 1) implies #[trigger] b[x]
                == a[x - (j + 1) + (i + 1)] by {
                assert(b[x] == a[x - j + i]);
            }
        }
        lemma_digit_run_same(a, i + 1, b, j + 1);
    }
}

/// Where `b` holds what `a` holds as far as the exponent of `a` reaches, and
/// neither a digit nor, where `a` has no exponent, an `e` after that, the
/// exponent of `b` is as long.
pub proof fn lemma_exponent_same(a: Seq<char>, i: int, b: Seq<char>, j: int)
    requires
        same_text(a, i, b, j, exponent_len(a, i) as int),
        exponent_len(a, i) > 0 ==> !has_digit(b, j + exponent_len(a, i)),
        exponent_len(a, i) == 0 ==> !has_char(b, j, 'e') && !has_char(b, j, 'E'),
    ensures
        exponent_len(b, j) == exponent_len(a, i),
{
    if exponent_len(a, i) > 0 {
        let mark: nat = if has_char(a, i + 1, '+') || has_char(a, i + 1, '-') {
            1
        } else {
            0
        };
        lemma_digit_run_bounds(a, i + 1 + mark);
        let run = digit_run(a, i + 1 + mark);
        assert(exponent_len(a, i) == 1 + mark + run);
        assert(run > 0);
        assert(b[j] == a[j - j + i]);
        assert(b[j + 1] == a[j + 1 - j + i]);
        assert(b[j + 1 + mark] == a[j + 1 + mark - j + i]);
        assert(same_text(a, i + 1 + mark, b, j + 1 + mark, run as int)) by {
            assert forall|x: int| j + 1 + mark <= x < j + 1 + mark + run implies #[trigger] b[x]
                == a[x - (j + 1 + mark) + (i + 1 + mark)] by {
                assert(b[x] == a[x - j + i]);
            }
        }
        lemma_digit_run_same(a, i + 1 + mark, b, j + 1 + mark);
    }
}

/// Where `b` holds from `j` on the number that `a` holds from `i` on, and
/// after it nothing that continues a number, `b` holds the same number.
pub proof fn lemma_number_same(a: Seq<char>, i: int, b: Seq<char>, j: int)
    requires
        number_len(a, i) is Ok,
        same_text(a, i, b, j, number_len(a, i)->Ok_0 as int),
        j + number_len(a, i)->Ok_0 == b.len() || !continues_number(b[j + number_len(a, i)->Ok_0]),
    ensures
        number_len(b, j) == number_len(a, i),
{
    let n = number_len(a, i)->Ok_0;
    lemma_number_parts(a, i);
    lemma_number_parts(b, j);
    let sign = sign_len(a, i);
    let whole = whole_len(a, i + sign);
    let fraction = fraction_len(a, i + sign + whole);
    let exponent = exponent_len(a, i + sign + whole + fraction);
    assert(n == sign + whole + fraction + exponent);
    assert(b[j] == a[j - j + i]);
    assert(sign_len(b, j) == sign);
    lemma_digit_run_bounds(a, i + sign);
    assert(same_text(a, i + sign, b, j + sign, whole as int)) by {
        assert forall|x: int| j + sign <= x < j + sign + whole implies #[trigger] b[x] == a[x - (j
            + sign) + (i + sign)] by {
            assert(b[x] == a[x - j + i]);
        }
    }
    let x = sign + whole;
    if x < n {
        assert(b[j + x] == a[j + x - j + i]);
    }
    lemma_whole_same(a, i + sign, b, j + sign);
    lemma_digit_run_bounds(a, i + x + 1);
    assert(same_text(a, i + x, b, j + x, fraction as int)) by {
        assert forall|z: int| j + x <= z < j + x + fraction implies #[trigger] b[z] == a[z - (j
            + x) + (i + x)] by {
            assert(b[z] == a[z - j + i]);
        }
    }
    let y = x + fraction;
    if y < n {
        assert(b[j + y] == a[j + y - j + i]);
    }
    lemma_fraction_same(a, i + x, b, j + x);
    assert(same_text(a, i + y, b, j + y, exponent as int)) by {
        assert forall|z: int| j + y <= z < j + y + exponent implies #[trigger] b[z] == a[z - (j
            + y) + (i + y)] by {
            assert(b[z] == a[z - j + i]);
        }
    }
    lemma_exponent_same(a, i + y, b, j + y);
}

/// A string ends with a double quote within the text.
pub proof fn lemma_string_bounds(s: Seq<char>, i: int)
    requires
        0 <= i,
        string_len(s, i) is Ok,
    ensures
        i + string_len(s, i)->Ok_0 < s.len(),
        s[i + string_len(s, i)->Ok_0] == '"',
    decreases s.len() - i,
{
    if s[i] == '"' {
    } else if s[i] != '\\' {
        lemma_string_bounds(s, i + 1);
    } else if i + 1 < s.len() && is_simple_escape(s[i + 1]) {
        lemma_string_bounds(s, i + 2);
    } else {
        lemma_string_bounds(s, i + 6);
    }
}

/// `same_text` of a later part.
pub proof fn lemma_same_text_later(a: Seq<char>, i: int, b: Seq<char>, j: int, n: int, d: int)
    requires
        same_text(a, i, b, j, n),
        0 <= d <= n,
    ensures
        same_text(a, i + d, b, j + d, n - d),
{
    assert forall|x: int| j + d <= x < j + d + (n - d) implies #[trigger] b[x] == a[x - (j + d) + (i
        + d)] by {
        assert(b[x] == a[x - j + i]);
    }
}

/// Where `b` holds from `j` on the string that `a` holds from `i` on, up to
/// its closing quote, `b` holds the same string.
pub proof fn lemma_string_same(a: Seq<char>, i: int, b: Seq<char>, j: int)
    requires
        string_len(a, i) is Ok,
        same_text(a, i, b, j, (string_len(a, i)->Ok_0 + 1) as int),
    ensures
        string_len(b, j) == string_len(a, i),
    decreases a.len() - i,
{
    let n = string_len(a, i)->Ok_0 as int;
    lemma_string_bounds(a, i);
    assert(b[j] == a[j - j + i]);
    if a[i] == '"' {
    } else if a[i] != '\\' {
        lemma_same_text_later(a, i, b, j, n + 1, 1);
        lemma_string_same(a, i + 1, b, j + 1);
    } else if i + 1 < a.len() && is_simple_escape(a[i + 1]) {
        lemma_string_bounds(a, i + 2);
        assert(b[j + 1] == a[j + 1 - j + i]);
        lemma_same_text_later(a, i, b, j, n + 1, 2);
        lemma_string_same(a, i + 2, b, j + 2);
    } else {
        lemma_string_bounds(a, i + 6);
        assert(b[j + 1] == a[j + 1 - j + i]);
        assert(b[j + 2] == a[j + 2 - j + i]);
        assert(b[j + 3] == a[j + 3 - j + i]);
        assert(b[j + 4] == a[j + 4 - j + i]);
        assert(b[j + 5] == a[j + 5 - j + i]);
        lemma_same_text_later(a, i, b, j, n + 1, 6);
        lemma_string_same(a, i + 6, b, j + 6);
    }
}

/// Whether `t` is the text of one number and nothing else.
pub open spec fn number_text_ok(t: Seq<char>) -> bool {
    number_len(t, 0) == Ok::<nat, ParseErrorView>(t.len())
}

/// Whether `t` can stand between the quotes of a string: a double quote
/// after `t` is the first that closes the string.
pub open spec fn string_text_ok(t: Seq<char>) -> bool {
    string_len(t.push('"'), 0) == Ok::<nat, ParseErrorView>(t.len())
}

/// Whether `v` is a tree as the parser gives it: every container expanded,
/// every number and every string and name holding a text that the parser
/// reads as such.
pub open spec fn readable(v: ValueView) -> bool
    decreases v,
{
    match v {
        ValueView::Null => true,
        ValueView::Bool(_) => true,
        ValueView::Number(t) => number_text_ok(t),
        ValueView::String(t) => string_text_ok(t),
        ValueView::Array { collapse, items } => !collapse && forall|k: int|
            0 <= k < items.len() ==> readable(#[trigger] items[k]),
        ValueView::Object { collapse, members } => !collapse && forall|k: int|
            0 <= k < members.len() ==> string_text_ok((#[trigger] members[k]).name) && readable(
                members[k].value,
            ),
    }
}

/// The text between the quotes of a string that was read can stand between
/// quotes.
pub proof fn lemma_string_text_read(s: Seq<char>, i: int)
    requires
        0 <= i,
        string_len(s, i) is Ok,
    ensures
        i + string_len(s, i)->Ok_0 < s.len(),
        string_text_ok(s.subrange(i, i + string_len(s, i)->Ok_0)),
{
    let n = string_len(s, i)->Ok_0;
    lemma_string_bounds(s, i);
    let b = s.subrange(i, i + n).push('"');
    assert(same_text(s, i, b, 0, (n + 1) as int));
    lemma_string_same(s, i, b, 0);
}

/// The text of a number that was read is the text of one number.
pub proof fn lemma_number_text_read(s: Seq<char>, i: int)
    requires
        0 <= i,
        number_len(s, i) is Ok,
    ensures
        i + number_len(s, i)->Ok_0 <= s.len(),
        number_text_ok(s.subrange(i, i + number_len(s, i)->Ok_0)),
{
    let n = number_len(s, i)->Ok_0;
    lemma_number_bounds(s, i);
    let b = s.subrange(i, i + n);
    assert(same_text(s, i, b, 0, n as int));
    lemma_number_same(s, i, b, 0);
}

/// A value that was read is readable.
pub proof fn lemma_value_readable(s: Seq<char>, i: int)
    requires
        value_at(s, i) is Ok,
    ensures
        readable(value_at(s, i)->Ok_0.value),
    decreases left(s, i), 0nat,
{
    if s[i] == '{' {
        let ws = ws_run(s, i + 1);
        if !has_char(s, i + 1 + ws, '}') {
            lemma_members_readable(s, i + 1 + ws, Seq::empty());
        }
    } else if s[i] == '[' {
        let ws = ws_run(s, i + 1);
        if !has_char(s, i + 1 + ws, ']') {
            lemma_items_readable(s, i + 1 + ws, Seq::empty());
        }
    } else if s[i] == '"' {
        lemma_string_text_read(s, i + 1);
    } else if s[i] == '-' || is_digit(s[i]) {
        lemma_number_text_read(s, i);
    }
}

/// Items that were read after readable items are readable.
pub proof fn lemma_items_readable(s: Seq<char>, i: int, acc: Seq<ValueView>)
    requires
        items_at(s, i, acc) is Ok,
        forall|k: int| 0 <= k < acc.len() ==> readable(#[trigger] acc[k]),
    ensures
        forall|k: int|
            0 <= k < items_at(s, i, acc)->Ok_0.items.len() ==> readable(
                #[trigger] items_at(s, i, acc)->Ok_0.items[k],
            ),
    decreases left(s, i), 1nat,
{
    lemma_value_readable(s, i);
    let p = value_at(s, i)->Ok_0;
    let sep = p.len + ws_run(s, i + p.len);
    let more = acc.push(p.value);
    assert forall|k: int| 0 <= k < more.len() implies readable(#[trigger] more[k]) by {
        if k < acc.len() {
            assert(more[k] == acc[k]);
        }
    }
    if has_char(s, i + sep, ',') {
        let next = sep + 1 + ws_run(s, i + sep + 1);
        lemma_items_readable(s, i + next, more);
    }
}

/// Members that were read after readable members are readable.
pub proof fn lemma_members_readable(s: Seq<char>, i: int, acc: Seq<MemberView>)
    requires
        members_at(s, i, acc) is Ok,
        forall|k: int|
            0 <= k < acc.len() ==> string_text_ok((#[trigger] acc[k]).name) && readable(
                acc[k].value,
            ),
    ensures
        forall|k: int|
            0 <= k < members_at(s, i, acc)->Ok_0.members.len() ==> string_text_ok(
                (#[trigger] members_at(s, i, acc)->Ok_0.members[k]).name,
            ) && readable(members_at(s, i, acc)->Ok_0.members[k].value),
    decreases left(s, i), 1nat,
{
    lemma_string_text_read(s, i + 1);
    let n = string_len(s, i + 1)->Ok_0;
    let colon = n + 2 + ws_run(s, i + n + 2);
    let start = colon + 1 + ws_run(s, i + colon + 1);
    lemma_value_readable(s, i + start);
    let p = value_at(s, i + start)->Ok_0;
    let entry = member(s.subrange(i + 1, i + 1 + n), p.value);
    let sep = start + p.len + ws_run(s, i + start + p.len);
    let more = acc.push(entry);
    assert forall|k: int| 0 <= k < more.len() implies string_text_ok((#[trigger] more[k]).name)
        && readable(more[k].value) by {
        if k < acc.len() {
            assert(more[k] == acc[k]);
        }
    }
    if has_char(s, i + sep, ',') {
        let next = sep + 1 + ws_run(s, i + sep + 1);
        lemma_members_readable(s, i + next, more);
    }
}

/// The text of a break to depth `k`.
pub open spec fn break_text(k: nat, indent_text: Seq<char>) -> Seq<char> {
    seq!['\n'] + indentation(k, indent_text)
}

/// The text that opens a container.
pub open spec fn opening_text(bracket: char, k: nat, expanded: bool, indent_text: Seq<char>) -> Seq<
    char,
> {
    if expanded {
        seq![bracket] + break_text(k + 1, indent_text)
    } else {
        seq![bracket]
    }
}

/// The text that follows child `m` of `n`.
pub open spec fn after_text(m: int, n: int, k: nat, expanded: bool, indent_text: Seq<char>) -> Seq<
    char,
> {
    let comma = if m + 1 != n {
        seq![',']
    } else {
        Seq::empty()
    };
    let line = if expanded {
        break_text(
            if m + 1 == n {
                k
            } else {
                k + 1
            },
            indent_text,
        )
    } else {
        Seq::empty()
    };
    comma + line
}

/// The text of the items of an array from item `m` on.
pub open spec fn items_tail_text(
    items: Seq<ValueView>,
    m: nat,
    k: nat,
    expanded: bool,
    indent_text: Seq<char>,
) -> Seq<char>
    decreases items.len() - m,
{
    if m >= items.len() {
        Seq::empty()
    } else {
        value_text(items[m as int], child_indent(k, expanded), indent_text) + after_text(
            m as int,
            items.len() as int,
            k,
            expanded,
            indent_text,
        ) + items_tail_text(items, m + 1, k, expanded, indent_text)
    }
}

/// The text of the key of a member.
pub open spec fn key_text_of(name: Seq<char>) -> Seq<char> {
    seq!['"'] + name + seq!['"', ':', ' ']
}

/// The text of the members of an object from member `m` on.
pub open spec fn members_tail_text(
    members: Seq<MemberView>,
    m: nat,
    k: nat,
    expanded: bool,
    indent_text: Seq<char>,
) -> Seq<char>
    decreases members.len() - m,
{
    if m >= members.len() {
        Seq::empty()
    } else {
        key_text_of(members[m as int].name) + value_text(
            members[m as int].value,
            child_indent(k, expanded),
            indent_text,
        ) + after_text(m as int, members.len() as int, k, expanded, indent_text)
            + members_tail_text(members, m + 1, k, expanded, indent_text)
    }
}

/// Indentation by white space is white space.
pub proof fn lemma_break_all_ws(k: nat, indent_text: Seq<char>)
    requires
        all_ws(indent_text),
    ensures
        all_ws(indentation(k, indent_text)),
        all_ws(break_text(k, indent_text)),
        break_text(k, indent_text).len() > 0,
        break_text(k, indent_text)[0] == '\n',
    decreases k,
{
    reveal(all_ws);
    if k > 0 {
        lemma_break_all_ws((k - 1) as nat, indent_text);
        let before = indentation((k - 1) as nat, indent_text);
        assert forall|x: int| 0 <= x < indentation(k, indent_text).len() implies is_ws(
            #[trigger] indentation(k, indent_text)[x],
        ) by {
            if x < before.len() {
                assert(indentation(k, indent_text)[x] == before[x]);
            } else {
                assert(indentation(k, indent_text)[x] == indent_text[x - before.len()]);
            }
        }
    }
    let ind = indentation(k, indent_text);
    assert forall|x: int| 0 <= x < break_text(k, indent_text).len() implies is_ws(
        #[trigger] break_text(k, indent_text)[x],
    ) by {
        if x > 0 {
            assert(break_text(k, indent_text)[x] == ind[x - 1]);
        }
    }
}

/// The text of what opens a container.
pub proof fn lemma_opening_text(
    bracket: ElementView,
    c: char,
    k: nat,
    expanded: bool,
    indent_text: Seq<char>,
)
    requires
        bracket.content == seq![c],
    ensures
        pieces_text(opening(bracket, k, expanded), indent_text) == opening_text(
            c,
            k,
            expanded,
            indent_text,
        ),
{
    lemma_pieces_text_one(Piece::Item(bracket), indent_text);
    if expanded {
        lemma_pieces_text_one(Piece::Break(k + 1), indent_text);
        lemma_pieces_text_concat(seq![Piece::Item(bracket)], seq![Piece::Break(k + 1)], indent_text);
        assert(opening(bracket, k, expanded) =~= seq![Piece::Item(bracket)] + seq![
            Piece::Break(k + 1),
        ]);
    }
}

/// The text of what follows a child.
pub proof fn lemma_after_text(m: int, n: int, k: nat, expanded: bool, indent_text: Seq<char>)
    ensures
        pieces_text(after_child(m, n, k, expanded), indent_text) == after_text(
            m,
            n,
            k,
            expanded,
            indent_text,
        ),
{
    let comma = if m + 1 != n {
        seq![Piece::Item(comma_element())]
    } else {
        Seq::empty()
    };
    let depth: nat = if m + 1 == n {
        k
    } else {
        k + 1
    };
    let line = if expanded {
        seq![Piece::Break(depth)]
    } else {
        Seq::empty()
    };
    lemma_pieces_text_concat(comma, line, indent_text);
    lemma_pieces_text_one(Piece::Item(comma_element()), indent_text);
    lemma_pieces_text_one(Piece::Break(depth), indent_text);
    assert(pieces_text(Seq::<Piece>::empty(), indent_text) =~= Seq::<char>::empty());
}

/// The text of the first `m` items and the text of the items from `m` on
/// make the text of all items.
pub proof fn lemma_items_text(
    items: Seq<ValueView>,
    m: nat,
    k: nat,
    expanded: bool,
    indent_text: Seq<char>,
)
    requires
        m <= items.len(),
    ensures
        pieces_text(items_pieces(items, m, k, expanded), indent_text) + items_tail_text(
            items,
            m,
            k,
            expanded,
            indent_text,
        ) == pieces_text(items_pieces(items, items.len(), k, expanded), indent_text),
    decreases items.len() - m,
{
    let upto = pieces_text(items_pieces(items, m, k, expanded), indent_text);
    if m == items.len() {
        assert(upto + items_tail_text(items, m, k, expanded, indent_text) =~= upto);
    } else {
        lemma_items_text(items, m + 1, k, expanded, indent_text);
        let child = value_pieces(items[m as int], child_indent(k, expanded));
        let after = after_child(m as int, items.len() as int, k, expanded);
        lemma_after_text(m as int, items.len() as int, k, expanded, indent_text);
        lemma_pieces_text_concat(items_pieces(items, m, k, expanded), child, indent_text);
        lemma_pieces_text_concat(items_pieces(items, m, k, expanded) + child, after, indent_text);
        assert(items_pieces(items, m + 1, k, expanded) == items_pieces(items, m, k, expanded)
            + child + after);
        let rest = items_tail_text(items, m + 1, k, expanded, indent_text);
        assert(upto + items_tail_text(items, m, k, expanded, indent_text) =~= pieces_text(
            items_pieces(items, m + 1, k, expanded),
            indent_text,
        ) + rest);
    }
}

/// The same for the members of an object.
pub proof fn lemma_members_text(
    members: Seq<MemberView>,
    m: nat,
    k: nat,
    expanded: bool,
    indent_text: Seq<char>,
)
    requires
        m <= members.len(),
    ensures
        pieces_text(members_pieces(members, m, k, expanded), indent_text) + members_tail_text(
            members,
            m,
            k,
            expanded,
            indent_text,
        ) == pieces_text(members_pieces(members, members.len(), k, expanded), indent_text),
    decreases members.len() - m,
{
    let upto = pieces_text(members_pieces(members, m, k, expanded), indent_text);
    if m == members.len() {
        assert(upto + members_tail_text(members, m, k, expanded, indent_text) =~= upto);
    } else {
        lemma_members_text(members, m + 1, k, expanded, indent_text);
        let key = seq![Piece::Item(key_element(members[m as int].name))];
        let child = value_pieces(members[m as int].value, child_indent(k, expanded));
        let after = after_child(m as int, members.len() as int, k, expanded);
        let before = members_pieces(members, m, k, expanded);
        lemma_after_text(m as int, members.len() as int, k, expanded, indent_text);
        lemma_pieces_text_one(Piece::Item(key_element(members[m as int].name)), indent_text);
        lemma_pieces_text_concat(before, key, indent_text);
        lemma_pieces_text_concat(before + key, child, indent_text);
        lemma_pieces_text_concat(before + key + child, after, indent_text);
        assert(members_pieces(members, m + 1, k, expanded) == before + key + child + after);
        let rest = members_tail_text(members, m + 1, k, expanded, indent_text);
        assert(upto + members_tail_text(members, m, k, expanded, indent_text) =~= pieces_text(
            members_pieces(members, m + 1, k, expanded),
            indent_text,
        ) + rest);
    }
}

/// The text of an expanded or compact array: what opens it, its items, and
/// the closing bracket.
pub proof fn lemma_array_text(items: Seq<ValueView>, k: nat, indent_text: Seq<char>)
    ensures
        value_text(ValueView::Array { collapse: false, items }, k, indent_text) == opening_text(
            '[',
            k,
            array_expanded(items),
            indent_text,
        ) + items_tail_text(items, 0, k, array_expanded(items), indent_text) + seq![']'],
{
    let e = array_expanded(items);
    let open = opening(open_bracket_element(), k, e);
    let body = items_pieces(items, items.len(), k, e);
    let close = seq![Piece::Item(close_bracket_element())];
    lemma_opening_text(open_bracket_element(), '[', k, e, indent_text);
    lemma_items_text(items, 0, k, e, indent_text);
    lemma_pieces_text_one(Piece::Item(close_bracket_element()), indent_text);
    lemma_pieces_text_concat(open, body, indent_text);
    lemma_pieces_text_concat(open + body, close, indent_text);
    assert(pieces_text(items_pieces(items, 0, k, e), indent_text) =~= Seq::<char>::empty());
    assert(Seq::<char>::empty() + items_tail_text(items, 0, k, e, indent_text)
        =~= items_tail_text(items, 0, k, e, indent_text));
}

/// The text of an expanded or compact object.
pub proof fn lemma_object_text(members: Seq<MemberView>, k: nat, indent_text: Seq<char>)
    ensures
        value_text(ValueView::Object { collapse: false, members }, k, indent_text) == opening_text(
            '{',
            k,
            object_expanded(members),
            indent_text,
        ) + members_tail_text(members, 0, k, object_expanded(members), indent_text) + seq!['}'],
{
    let e = object_expanded(members);
    let open = opening(open_brace_element(), k, e);
    let body = members_pieces(members, members.len(), k, e);
    let close = seq![Piece::Item(close_brace_element())];
    lemma_opening_text(open_brace_element(), '{', k, e, indent_text);
    lemma_members_text(members, 0, k, e, indent_text);
    lemma_pieces_text_one(Piece::Item(close_brace_element()), indent_text);
    lemma_pieces_text_concat(open, body, indent_text);
    lemma_pieces_text_concat(open + body, close, indent_text);
    assert(pieces_text(members_pieces(members, 0, k, e), indent_text) =~= Seq::<char>::empty());
    assert(Seq::<char>::empty() + members_tail_text(members, 0, k, e, indent_text)
        =~= members_tail_text(members, 0, k, e, indent_text));
}

/// Whether a value can start with `c`.
pub open spec fn is_value_start(c: char) -> bool {
    c == '{' || c == '[' || c == '"' || c == '-' || is_digit(c) || c == 't' || c == 'f' || c == 'n'
}

/// The text of a readable value starts with a character that starts a value.
pub proof fn lemma_value_text_starts(v: ValueView, k: nat, indent_text: Seq<char>)
    requires
        readable(v),
    ensures
        value_text(v, k, indent_text).len() > 0,
        is_value_start(value_text(v, k, indent_text)[0]),
{
    match v {
        ValueView::Null => {
            lemma_pieces_text_one(Piece::Item(null_element()), indent_text);
        },
        ValueView::Bool(b) => {
            lemma_pieces_text_one(Piece::Item(bool_element(b)), indent_text);
        },
        ValueView::Number(t) => {
            lemma_pieces_text_one(Piece::Item(number_element(t)), indent_text);
            lemma_number_bounds(t, 0);
        },
        ValueView::String(t) => {
            lemma_pieces_text_one(Piece::Item(string_element(t)), indent_text);
        },
        ValueView::Array { collapse, items } => {
            lemma_array_text(items, k, indent_text);
        },
        ValueView::Object { collapse, members } => {
            lemma_object_text(members, k, indent_text);
        },
    }
}

/// Whether what stands at `j` in `s` lets a value end before it: the end of
/// the text, a comma, a closing bracket or brace, or white space.
pub open spec fn value_may_end(s: Seq<char>, j: int) -> bool {
    j == s.len() || (0 <= j < s.len() && (s[j] == ',' || s[j] == ']' || s[j] == '}' || is_ws(
        s[j],
    )))
}

/// Where `s` holds `t` at `i`, the characters of `s` from `i` on are those
/// of `t`.
pub proof fn lemma_text_at_char(s: Seq<char>, i: int, t: Seq<char>, k: int)
    requires
        text_at(s, i, t),
        0 <= k < t.len(),
    ensures
        0 <= i,
        i + t.len() <= s.len(),
        s[i + k] == t[k],
{
    reveal(text_at);
}

/// A text holds itself.
pub proof fn lemma_text_at_self(t: Seq<char>)
    ensures
        text_at(t, 0, t),
{
    reveal(text_at);
}

/// Where `s` holds `t` at `i`, that part of `s` is `t`.
pub proof fn lemma_text_at_subrange(s: Seq<char>, i: int, t: Seq<char>, from: int, to: int)
    requires
        text_at(s, i, t),
        0 <= from <= to <= t.len(),
    ensures
        s.subrange(i + from, i + to) == t.subrange(from, to),
        same_text(t, from, s, i + from, to - from),
{
    reveal(text_at);
    assert forall|x: int| 0 <= x < to - from implies s.subrange(i + from, i + to)[x] == t.subrange(
        from,
        to,
    )[x] by {
        assert(s[i + (from + x)] == t[from + x]);
    }
    assert(s.subrange(i + from, i + to) =~= t.subrange(from, to));
    assert forall|x: int| i + from <= x < i + from + (to - from) implies #[trigger] s[x] == t[x
        - (i + from) + from] by {
        assert(s[i + (x - i)] == t[x - i]);
    }
}

/// Four spaces are white space.
pub proof fn lemma_four_spaces()
    ensures
        all_ws(four_spaces()),
{
    reveal(all_ws);
}

/// No text is white space.
pub proof fn lemma_empty_all_ws()
    ensures
        all_ws(Seq::<char>::empty()),
{
    reveal(all_ws);
}

/// Where `s` holds white space at `i` and then a text that starts with
/// something else, the run of white space is exactly that white space.
pub proof fn lemma_skip_break(s: Seq<char>, i: int, ws: Seq<char>, rest: Seq<char>)
    requires
        text_at(s, i, ws + rest),
        all_ws(ws),
        rest.len() > 0,
        !is_ws(rest[0]),
    ensures
        ws_run(s, i) == ws.len(),
        text_at(s, i + ws.len(), rest),
        has_char(s, i + ws.len(), rest[0]),
{
    lemma_text_at_split(s, i, ws, rest);
    lemma_text_at_char(s, i + ws.len(), rest, 0);
    lemma_ws_run_text(s, i, ws);
}

/// Where `s` holds a text, a comma, white space and something else, one
/// after another: what the parser sees after the text.
pub proof fn lemma_child_then_comma(
    s: Seq<char>,
    pos: int,
    text: Seq<char>,
    line: Seq<char>,
    rest: Seq<char>,
)
    requires
        text_at(s, pos, text + (seq![','] + (line + rest))),
        all_ws(line),
        rest.len() > 0,
        !is_ws(rest[0]),
    ensures
        text_at(s, pos, text),
        has_char(s, pos + text.len(), ','),
        value_may_end(s, pos + text.len()),
        ws_run(s, pos + text.len()) == 0,
        ws_run(s, pos + text.len() + 1) == line.len(),
        text_at(s, pos + text.len() + 1 + line.len(), rest),
{
    lemma_text_at_split(s, pos, text, seq![','] + (line + rest));
    lemma_text_at_split(s, pos + text.len(), seq![','], line + rest);
    lemma_text_at_char(s, pos + text.len(), seq![','], 0);
    lemma_skip_break(s, pos + text.len() + 1, line, rest);
    lemma_ws_run_exact(s, pos + text.len(), 0);
}

/// Where `s` holds a text, white space and a closing bracket or brace, one
/// after another: what the parser sees after the text.
pub proof fn lemma_child_then_close(s: Seq<char>, pos: int, text: Seq<char>, line: Seq<char>, c: char)
    requires
        text_at(s, pos, text + (line + seq![c])),
        all_ws(line),
        c == ']' || c == '}',
    ensures
        text_at(s, pos, text),
        value_may_end(s, pos + text.len()),
        ws_run(s, pos + text.len()) == line.len(),
        has_char(s, pos + text.len() + line.len(), c),
        !has_char(s, pos + text.len() + line.len(), ','),
{
    lemma_text_at_split(s, pos, text, line + seq![c]);
    lemma_skip_break(s, pos + text.len(), line, seq![c]);
    if line.len() > 0 {
        lemma_text_at_split(s, pos + text.len(), line, seq![c]);
        lemma_text_at_char(s, pos + text.len(), line, 0);
        reveal(all_ws);
    }
}

/// What the parser sees where `s` holds the key of a member and then
/// something that is no white space.
pub proof fn lemma_key_text(s: Seq<char>, pos: int, name: Seq<char>, rest: Seq<char>)
    requires
        text_at(s, pos, key_text_of(name) + rest),
        string_text_ok(name),
        rest.len() > 0,
        !is_ws(rest[0]),
    ensures
        has_char(s, pos, '"'),
        string_len(s, pos + 1) == Ok::<nat, ParseErrorView>(name.len()),
        s.subrange(pos + 1, pos + 1 + name.len()) == name,
        ws_run(s, pos + name.len() + 2) == 0,
        has_char(s, pos + name.len() + 2, ':'),
        ws_run(s, pos + name.len() + 3) == 1,
        text_at(s, pos + name.len() + 4, rest),
{
    let key = key_text_of(name);
    lemma_text_at_split(s, pos, key, rest);
    lemma_text_at_char(s, pos + key.len(), rest, 0);
    lemma_text_at_char(s, pos, key, 0);
    lemma_text_at_char(s, pos, key, name.len() + 2 as int);
    lemma_text_at_char(s, pos, key, name.len() + 3 as int);
    lemma_text_at_subrange(s, pos, key, 1, name.len() + 2 as int);
    assert(key.subrange(1, name.len() + 2 as int) =~= name.push('"'));
    lemma_string_same(name.push('"'), 0, s, pos + 1);
    lemma_text_at_subrange(s, pos, key, 1, name.len() + 1 as int);
    assert(key.subrange(1, name.len() + 1 as int) =~= name);
    lemma_ws_run_exact(s, pos + name.len() + 2, 0);
    lemma_ws_run_exact(s, pos + name.len() + 3, 1);
}

/// The text of the items from `m` on, where item `m` is not the last.
pub proof fn lemma_items_tail_more(
    items: Seq<ValueView>,
    m: nat,
    k: nat,
    expanded: bool,
    indent_text: Seq<char>,
    close: Seq<char>,
)
    requires
        m + 1 < items.len(),
    ensures
        items_tail_text(items, m, k, expanded, indent_text) + close == value_text(
            items[m as int],
            child_indent(k, expanded),
            indent_text,
        ) + (seq![','] + (inner_line(k, expanded, indent_text) + (items_tail_text(
            items,
            m + 1,
            k,
            expanded,
            indent_text,
        ) + close))),
        items_tail_text(items, m, k, expanded, indent_text).len() == value_text(
            items[m as int],
            child_indent(k, expanded),
            indent_text,
        ).len() + 1 + inner_line(k, expanded, indent_text).len() + items_tail_text(
            items,
            m + 1,
            k,
            expanded,
            indent_text,
        ).len(),
{
    let text = value_text(items[m as int], child_indent(k, expanded), indent_text);
    let line = inner_line(k, expanded, indent_text);
    let tail = items_tail_text(items, m + 1, k, expanded, indent_text);
    assert(after_text(m as int, items.len() as int, k, expanded, indent_text) =~= seq![','] + line);
    assert(items_tail_text(items, m, k, expanded, indent_text) + close =~= text + (seq![','] + (line
        + (tail + close))));
}

/// The text of the items from the last item on.
pub proof fn lemma_items_tail_last(
    items: Seq<ValueView>,
    m: nat,
    k: nat,
    expanded: bool,
    indent_text: Seq<char>,
    close: Seq<char>,
)
    requires
        m + 1 == items.len(),
    ensures
        items_tail_text(items, m, k, expanded, indent_text) + close == value_text(
            items[m as int],
            child_indent(k, expanded),
            indent_text,
        ) + (outer_line(k, expanded, indent_text) + close),
        items_tail_text(items, m, k, expanded, indent_text).len() == value_text(
            items[m as int],
            child_indent(k, expanded),
            indent_text,
        ).len() + outer_line(k, expanded, indent_text).len(),
{
    let text = value_text(items[m as int], child_indent(k, expanded), indent_text);
    let line = outer_line(k, expanded, indent_text);
    let tail = items_tail_text(items, m + 1, k, expanded, indent_text);
    assert(tail =~= Seq::<char>::empty());
    assert(after_text(m as int, items.len() as int, k, expanded, indent_text) =~= line);
    assert(items_tail_text(items, m, k, expanded, indent_text) + close =~= text + (line + close));
}

/// The text of the members from `m` on, where member `m` is not the last.
pub proof fn lemma_members_tail_more(
    members: Seq<MemberView>,
    m: nat,
    k: nat,
    expanded: bool,
    indent_text: Seq<char>,
    close: Seq<char>,
)
    requires
        m + 1 < members.len(),
    ensures
        members_tail_text(members, m, k, expanded, indent_text) + close == key_text_of(
            members[m as int].name,
        ) + (value_text(members[m as int].value, child_indent(k, expanded), indent_text) + (seq![
            ',',
        ] + (inner_line(k, expanded, indent_text) + (members_tail_text(
            members,
            m + 1,
            k,
            expanded,
            indent_text,
        ) + close)))),
        members_tail_text(members, m, k, expanded, indent_text).len() == members[m as int].name.len()
            + 4 + value_text(
            members[m as int].value,
            child_indent(k, expanded),
            indent_text,
        ).len() + 1 + inner_line(k, expanded, indent_text).len() + members_tail_text(
            members,
            m + 1,
            k,
            expanded,
            indent_text,
        ).len(),
{
    let key = key_text_of(members[m as int].name);
    let text = value_text(members[m as int].value, child_indent(k, expanded), indent_text);
    let line = inner_line(k, expanded, indent_text);
    let tail = members_tail_text(members, m + 1, k, expanded, indent_text);
    assert(after_text(m as int, members.len() as int, k, expanded, indent_text) =~= seq![','] + line);
    assert(members_tail_text(members, m, k, expanded, indent_text) + close =~= key + (text + (seq![
        ',',
    ] + (line + (tail + close)))));
}

/// The text of the members from the last member on.
pub proof fn lemma_members_tail_last(
    members: Seq<MemberView>,
    m: nat,
    k: nat,
    expanded: bool,
    indent_text: Seq<char>,
    close: Seq<char>,
)
    requires
        m + 1 == members.len(),
    ensures
        members_tail_text(members, m, k, expanded, indent_text) + close == key_text_of(
            members[m as int].name,
        ) + (value_text(members[m as int].value, child_indent(k, expanded), indent_text) + (
        outer_line(k, expanded, indent_text) + close)),
        members_tail_text(members, m, k, expanded, indent_text).len() == members[m as int].name.len()
            + 4 + value_text(
            members[m as int].value,
            child_indent(k, expanded),
            indent_text,
        ).len() + outer_line(k, expanded, indent_text).len(),
{
    let key = key_text_of(members[m as int].name);
    let text = value_text(members[m as int].value, child_indent(k, expanded), indent_text);
    let line = outer_line(k, expanded, indent_text);
    let tail = members_tail_text(members, m + 1, k, expanded, indent_text);
    assert(tail =~= Seq::<char>::empty());
    assert(after_text(m as int, members.len() as int, k, expanded, indent_text) =~= line);
    assert(members_tail_text(members, m, k, expanded, indent_text) + close =~= key + (text + (line
        + close)));
}

/// The break between two children of an expanded container; nothing in a
/// compact one.
pub open spec fn inner_line(k: nat, expanded: bool, indent_text: Seq<char>) -> Seq<char> {
    if expanded {
        break_text(k + 1, indent_text)
    } else {
        Seq::empty()
    }
}

/// The break before the bracket that closes an expanded container; nothing
/// in a compact one.
pub open spec fn outer_line(k: nat, expanded: bool, indent_text: Seq<char>) -> Seq<char> {
    if expanded {
        break_text(k, indent_text)
    } else {
        Seq::empty()
    }
}

/// The breaks of a container are white space.
pub proof fn lemma_lines_all_ws(k: nat, expanded: bool, indent_text: Seq<char>)
    requires
        all_ws(indent_text),
    ensures
        all_ws(inner_line(k, expanded, indent_text)),
        all_ws(outer_line(k, expanded, indent_text)),
{
    lemma_break_all_ws(k, indent_text);
    lemma_break_all_ws(k + 1, indent_text);
    lemma_empty_all_ws();
}

/// The text of a container: its bracket, the break after it, and then its
/// children and the closing bracket.
pub proof fn lemma_container_text(v: ValueView, k: nat, indent_text: Seq<char>)
    requires
        v is Array || v is Object,
        readable(v),
    ensures
        v matches ValueView::Array { items, .. } ==> value_text(v, k, indent_text) == seq!['[']
            + (inner_line(k, array_expanded(items), indent_text) + (items_tail_text(
            items,
            0,
            k,
            array_expanded(items),
            indent_text,
        ) + seq![']'])) && value_text(v, k, indent_text).len() == 1 + inner_line(
            k,
            array_expanded(items),
            indent_text,
        ).len() + items_tail_text(items, 0, k, array_expanded(items), indent_text).len() + 1,
        v matches ValueView::Object { members, .. } ==> value_text(v, k, indent_text) == seq!['{']
            + (inner_line(k, object_expanded(members), indent_text) + (members_tail_text(
            members,
            0,
            k,
            object_expanded(members),
            indent_text,
        ) + seq!['}'])) && value_text(v, k, indent_text).len() == 1 + inner_line(
            k,
            object_expanded(members),
            indent_text,
        ).len() + members_tail_text(members, 0, k, object_expanded(members), indent_text).len()
            + 1,
{
    match v {
        ValueView::Array { collapse, items } => {
            lemma_array_text(items, k, indent_text);
            let e = array_expanded(items);
            assert(value_text(v, k, indent_text) =~= seq!['['] + (inner_line(k, e, indent_text) + (
            items_tail_text(items, 0, k, e, indent_text) + seq![']'])));
        },
        ValueView::Object { collapse, members } => {
            lemma_object_text(members, k, indent_text);
            let e = object_expanded(members);
            assert(value_text(v, k, indent_text) =~= seq!['{'] + (inner_line(k, e, indent_text) + (
            members_tail_text(members, 0, k, e, indent_text) + seq!['}'])));
        },
        _ => {},
    }
}

/// The first character of the text of the items from `m` on.
pub proof fn lemma_items_tail_starts(
    items: Seq<ValueView>,
    m: nat,
    k: nat,
    expanded: bool,
    indent_text: Seq<char>,
    close: Seq<char>,
)
    requires
        m < items.len(),
        readable(items[m as int]),
    ensures
        (items_tail_text(items, m, k, expanded, indent_text) + close).len() > 0,
        is_value_start((items_tail_text(items, m, k, expanded, indent_text) + close)[0]),
{
    lemma_value_text_starts(items[m as int], child_indent(k, expanded), indent_text);
}

/// The first character of the text of the members from `m` on.
pub proof fn lemma_members_tail_starts(
    members: Seq<MemberView>,
    m: nat,
    k: nat,
    expanded: bool,
    indent_text: Seq<char>,
    close: Seq<char>,
)
    requires
        m < members.len(),
    ensures
        (members_tail_text(members, m, k, expanded, indent_text) + close).len() > 0,
        (members_tail_text(members, m, k, expanded, indent_text) + close)[0] == '"',
{
}

/// What the parser makes of `[]`.
pub proof fn lemma_step_array_empty(s: Seq<char>, i: int)
    requires
        has_char(s, i, '['),
        has_char(s, i + 1, ']'),
    ensures
        value_at(s, i) == Ok::<Parsed, ParseErrorView>(
            parsed(ValueView::Array { collapse: false, items: Seq::empty() }, 2),
        ),
{
    lemma_ws_run_exact(s, i + 1, 0);
}

/// What the parser makes of an opening bracket and items.
pub proof fn lemma_step_array(s: Seq<char>, i: int, gap: nat, r: ParsedItems)
    requires
        has_char(s, i, '['),
        ws_run(s, i + 1) == gap,
        !has_char(s, i + 1 + gap, ']'),
        items_at(s, i + 1 + gap, Seq::empty()) == Ok::<ParsedItems, ParseErrorView>(r),
    ensures
        value_at(s, i) == Ok::<Parsed, ParseErrorView>(
            parsed(ValueView::Array { collapse: false, items: r.items }, 1 + gap + r.len),
        ),
{
}

/// What the parser makes of `{}`.
pub proof fn lemma_step_object_empty(s: Seq<char>, i: int)
    requires
        has_char(s, i, '{'),
        has_char(s, i + 1, '}'),
    ensures
        value_at(s, i) == Ok::<Parsed, ParseErrorView>(
            parsed(ValueView::Object { collapse: false, members: Seq::empty() }, 2),
        ),
{
    lemma_ws_run_exact(s, i + 1, 0);
}

/// What the parser makes of an opening brace and members.
pub proof fn lemma_step_object(s: Seq<char>, i: int, gap: nat, r: ParsedMembers)
    requires
        has_char(s, i, '{'),
        ws_run(s, i + 1) == gap,
        !has_char(s, i + 1 + gap, '}'),
        members_at(s, i + 1 + gap, Seq::empty()) == Ok::<ParsedMembers, ParseErrorView>(r),
    ensures
        value_at(s, i) == Ok::<Parsed, ParseErrorView>(
            parsed(ValueView::Object { collapse: false, members: r.members }, 1 + gap + r.len),
        ),
{
}

/// What the parser makes of the last item of an array.
pub proof fn lemma_step_item_last(
    s: Seq<char>,
    pos: int,
    acc: Seq<ValueView>,
    v: ValueView,
    n: nat,
    gap: nat,
)
    requires
        value_at(s, pos) == Ok::<Parsed, ParseErrorView>(parsed(v, n)),
        ws_run(s, pos + n) == gap,
        has_char(s, pos + n + gap, ']'),
    ensures
        items_at(s, pos, acc) == Ok::<ParsedItems, ParseErrorView>(
            parsed_items(acc.push(v), n + gap + 1),
        ),
{
}

/// What the parser makes of an item that a comma follows.
pub proof fn lemma_step_item_more(
    s: Seq<char>,
    pos: int,
    acc: Seq<ValueView>,
    v: ValueView,
    n: nat,
    gap: nat,
    r: ParsedItems,
)
    requires
        value_at(s, pos) == Ok::<Parsed, ParseErrorView>(parsed(v, n)),
        ws_run(s, pos + n) == 0,
        has_char(s, pos + n, ','),
        ws_run(s, pos + n + 1) == gap,
        items_at(s, pos + n + 1 + gap, acc.push(v)) == Ok::<ParsedItems, ParseErrorView>(r),
    ensures
        items_at(s, pos, acc) == Ok::<ParsedItems, ParseErrorView>(
            parsed_items(r.items, n + 1 + gap + r.len),
        ),
{
}

/// What the parser makes of the last member of an object.
pub proof fn lemma_step_member_last(
    s: Seq<char>,
    pos: int,
    acc: Seq<MemberView>,
    name: Seq<char>,
    v: ValueView,
    n: nat,
    gap: nat,
)
    requires
        has_char(s, pos, '"'),
        string_len(s, pos + 1) == Ok::<nat, ParseErrorView>(name.len()),
        s.subrange(pos + 1, pos + 1 + name.len()) == name,
        ws_run(s, pos + name.len() + 2) == 0,
        has_char(s, pos + name.len() + 2, ':'),
        ws_run(s, pos + name.len() + 3) == 1,
        value_at(s, pos + name.len() + 4) == Ok::<Parsed, ParseErrorView>(parsed(v, n)),
        ws_run(s, pos + name.len() + 4 + n) == gap,
        has_char(s, pos + name.len() + 4 + n + gap, '}'),
    ensures
        members_at(s, pos, acc) == Ok::<ParsedMembers, ParseErrorView>(
            parsed_members(acc.push(member(name, v)), name.len() + 4 + n + gap + 1),
        ),
{
}

/// What the parser makes of a member that a comma follows.
pub proof fn lemma_step_member_more(
    s: Seq<char>,
    pos: int,
    acc: Seq<MemberView>,
    name: Seq<char>,
    v: ValueView,
    n: nat,
    gap: nat,
    r: ParsedMembers,
)
    requires
        has_char(s, pos, '"'),
        string_len(s, pos + 1) == Ok::<nat, ParseErrorView>(name.len()),
        s.subrange(pos + 1, pos + 1 + name.len()) == name,
        ws_run(s, pos + name.len() + 2) == 0,
        has_char(s, pos + name.len() + 2, ':'),
        ws_run(s, pos + name.len() + 3) == 1,
        value_at(s, pos + name.len() + 4) == Ok::<Parsed, ParseErrorView>(parsed(v, n)),
        ws_run(s, pos + name.len() + 4 + n) == 0,
        has_char(s, pos + name.len() + 4 + n, ','),
        ws_run(s, pos + name.len() + 4 + n + 1) == gap,
        members_at(s, pos + name.len() + 4 + n + 1 + gap, acc.push(member(name, v))) == Ok::<
            ParsedMembers,
            ParseErrorView,
        >(r),
    ensures
        members_at(s, pos, acc) == Ok::<ParsedMembers, ParseErrorView>(
            parsed_members(r.members, name.len() + 4 + n + 1 + gap + r.len),
        ),
{
}

/// Where `s` holds `null` at `i`, the parser reads it there.
pub proof fn lemma_null_parses(s: Seq<char>, i: int)
    requires
        text_at(s, i, word_null()),
    ensures
        value_at(s, i) == Ok::<Parsed, ParseErrorView>(parsed(ValueView::Null, 4)),
{
    lemma_text_at_char(s, i, word_null(), 0);
    lemma_text_at_subrange(s, i, word_null(), 0, 4);
    assert(word_null().subrange(0, 4) =~= word_null());
    assert(s.subrange(i, i + 4)[0] == s[i]);
    if i + 5 <= s.len() {
        assert(s.subrange(i, i + 5)[0] == s[i]);
    }
}

/// Where `s` holds `true` or `false` at `i`, the parser reads it there.
pub proof fn lemma_bool_parses(s: Seq<char>, i: int, b: bool)
    requires
        text_at(
            s,
            i,
            if b {
                word_true()
            } else {
                word_false()
            },
        ),
    ensures
        value_at(s, i) == Ok::<Parsed, ParseErrorView>(
            parsed(
                ValueView::Bool(b),
                if b {
                    4
                } else {
                    5
                },
            ),
        ),
{
    if b {
        lemma_text_at_char(s, i, word_true(), 0);
        lemma_text_at_subrange(s, i, word_true(), 0, 4);
        assert(word_true().subrange(0, 4) =~= word_true());
    } else {
        lemma_text_at_char(s, i, word_false(), 0);
        lemma_text_at_subrange(s, i, word_false(), 0, 5);
        assert(word_false().subrange(0, 5) =~= word_false());
        assert(s.subrange(i, i + 4)[0] == s[i]);
    }
}

/// Where `s` holds the text of one number at `i`, and something that lets a
/// value end after it, the parser reads that number there.
pub proof fn lemma_number_parses(s: Seq<char>, i: int, t: Seq<char>)
    requires
        number_text_ok(t),
        text_at(s, i, t),
        value_may_end(s, i + t.len()),
    ensures
        value_at(s, i) == Ok::<Parsed, ParseErrorView>(parsed(ValueView::Number(t), t.len())),
{
    lemma_number_bounds(t, 0);
    lemma_number_parts(t, 0);
    lemma_text_at_char(s, i, t, 0);
    lemma_text_at_subrange(s, i, t, 0, t.len() as int);
    assert(t.subrange(0, t.len() as int) =~= t);
    lemma_number_same(t, 0, s, i);
}

/// Where `s` holds at `i` a text between double quotes that can stand
/// there, the parser reads it as a string.
pub proof fn lemma_string_parses(s: Seq<char>, i: int, t: Seq<char>)
    requires
        string_text_ok(t),
        text_at(s, i, seq!['"'] + t + seq!['"']),
    ensures
        value_at(s, i) == Ok::<Parsed, ParseErrorView>(parsed(ValueView::String(t), t.len() + 2)),
{
    let text = seq!['"'] + t + seq!['"'];
    lemma_text_at_char(s, i, text, 0);
    lemma_text_at_subrange(s, i, text, 1, t.len() + 2 as int);
    assert(text.subrange(1, t.len() + 2 as int) =~= t.push('"'));
    lemma_string_same(t.push('"'), 0, s, i + 1);
    lemma_text_at_subrange(s, i, text, 1, t.len() + 1 as int);
    assert(text.subrange(1, t.len() + 1 as int) =~= t);
}

/// Where `s` holds the text of a readable scalar at `i`, and something that
/// lets a value end after it, the parser reads that scalar there.
pub proof fn lemma_scalar_parses(s: Seq<char>, i: int, v: ValueView, k: nat, indent_text: Seq<char>)
    requires
        readable(v),
        !(v is Array),
        !(v is Object),
        text_at(s, i, value_text(v, k, indent_text)),
        value_may_end(s, i + value_text(v, k, indent_text).len()),
    ensures
        value_at(s, i) == Ok::<Parsed, ParseErrorView>(
            parsed(v, value_text(v, k, indent_text).len()),
        ),
{
    match v {
        ValueView::Null => {
            lemma_pieces_text_one(Piece::Item(null_element()), indent_text);
            lemma_null_parses(s, i);
        },
        ValueView::Bool(b) => {
            lemma_pieces_text_one(Piece::Item(bool_element(b)), indent_text);
            lemma_bool_parses(s, i, b);
        },
        ValueView::Number(t) => {
            lemma_pieces_text_one(Piece::Item(number_element(t)), indent_text);
            lemma_number_parses(s, i, t);
        },
        ValueView::String(t) => {
            lemma_pieces_text_one(Piece::Item(string_element(t)), indent_text);
            lemma_string_parses(s, i, t);
        },
        _ => {},
    }
}

/// Where `s` holds the text of a readable value at `i`, and something that
/// lets a value end after it, the parser reads that value there.
pub proof fn lemma_value_parses(s: Seq<char>, i: int, v: ValueView, k: nat, indent_text: Seq<char>)
    requires
        readable(v),
        all_ws(indent_text),
        text_at(s, i, value_text(v, k, indent_text)),
        value_may_end(s, i + value_text(v, k, indent_text).len()),
    ensures
        value_at(s, i) == Ok::<Parsed, ParseErrorView>(
            parsed(v, value_text(v, k, indent_text).len()),
        ),
    decreases v, 1nat,
{
    if v is Array {
        lemma_array_parses(s, i, v, k, indent_text);
    } else if v is Object {
        lemma_object_parses(s, i, v, k, indent_text);
    } else {
        lemma_scalar_parses(s, i, v, k, indent_text);
    }
}

/// Where `s` holds at `pos` the text of the items of an array from item `m`
/// on and the closing bracket, the parser reads those items there.
pub proof fn lemma_items_parse(
    s: Seq<char>,
    pos: int,
    items: Seq<ValueView>,
    m: nat,
    acc: Seq<ValueView>,
    k: nat,
    expanded: bool,
    indent_text: Seq<char>,
)
    requires
        forall|x: int| 0 <= x < items.len() ==> readable(#[trigger] items[x]),
        all_ws(indent_text),
        m < items.len(),
        text_at(s, pos, items_tail_text(items, m, k, expanded, indent_text) + seq![']']),
    ensures
        items_at(s, pos, acc) == Ok::<ParsedItems, ParseErrorView>(
            parsed_items(
                acc + items.subrange(m as int, items.len() as int),
                items_tail_text(items, m, k, expanded, indent_text).len() + 1,
            ),
        ),
    decreases items, items.len() - m,
{
    let n = items.len() as int;
    let depth = child_indent(k, expanded);
    let item = items[m as int];
    let text = value_text(item, depth, indent_text);
    let close = seq![']'];
    lemma_lines_all_ws(k, expanded, indent_text);
    if m + 1 < n {
        let line = inner_line(k, expanded, indent_text);
        let rest = items_tail_text(items, m + 1, k, expanded, indent_text) + close;
        lemma_items_tail_more(items, m, k, expanded, indent_text, close);
        lemma_items_tail_starts(items, m + 1, k, expanded, indent_text, close);
        lemma_child_then_comma(s, pos, text, line, rest);
        lemma_value_parses(s, pos, item, depth, indent_text);
        let next = pos + text.len() + 1 + line.len();
        lemma_items_parse(s, next, items, m + 1, acc.push(item), k, expanded, indent_text);
        let r = items_at(s, next, acc.push(item))->Ok_0;
        lemma_step_item_more(s, pos, acc, item, text.len(), line.len(), r);
        assert(acc.push(item) + items.subrange(m + 1 as int, n) =~= acc + items.subrange(
            m as int,
            n,
        ));
    } else {
        let line = outer_line(k, expanded, indent_text);
        lemma_items_tail_last(items, m, k, expanded, indent_text, close);
        lemma_child_then_close(s, pos, text, line, ']');
        lemma_value_parses(s, pos, item, depth, indent_text);
        lemma_step_item_last(s, pos, acc, item, text.len(), line.len());
        assert(acc.push(item) =~= acc + items.subrange(m as int, n));
    }
}

/// Where `s` holds the text of a readable array at `i`, the parser reads
/// that array there.
pub proof fn lemma_array_parses(s: Seq<char>, i: int, v: ValueView, k: nat, indent_text: Seq<char>)
    requires
        readable(v),
        v is Array,
        all_ws(indent_text),
        text_at(s, i, value_text(v, k, indent_text)),
    ensures
        value_at(s, i) == Ok::<Parsed, ParseErrorView>(
            parsed(v, value_text(v, k, indent_text).len()),
        ),
    decreases v, 0nat,
{
    let items = v->Array_items;
    let e = array_expanded(items);
    let line = inner_line(k, e, indent_text);
    let close = seq![']'];
    let rest = items_tail_text(items, 0, k, e, indent_text) + close;
    lemma_container_text(v, k, indent_text);
    lemma_lines_all_ws(k, e, indent_text);
    lemma_text_at_split(s, i, seq!['['], line + rest);
    lemma_text_at_char(s, i, seq!['['], 0);
    if items.len() == 0 {
        assert(line =~= Seq::<char>::empty());
        assert(line + rest =~= close);
        lemma_text_at_char(s, i + 1, close, 0);
        lemma_step_array_empty(s, i);
        assert(items =~= Seq::<ValueView>::empty());
    } else {
        lemma_items_tail_starts(items, 0, k, e, indent_text, close);
        lemma_skip_break(s, i + 1, line, rest);
        lemma_items_parse(s, i + 1 + line.len(), items, 0, Seq::empty(), k, e, indent_text);
        let r = items_at(s, i + 1 + line.len(), Seq::empty())->Ok_0;
        lemma_step_array(s, i, line.len(), r);
        assert(Seq::<ValueView>::empty() + items.subrange(0, items.len() as int) =~= items);
    }
}

/// Where `s` holds at `pos` the text of the members of an object from member
/// `m` on and the closing brace, the parser reads those members there.
pub proof fn lemma_members_parse(
    s: Seq<char>,
    pos: int,
    members: Seq<MemberView>,
    m: nat,
    acc: Seq<MemberView>,
    k: nat,
    expanded: bool,
    indent_text: Seq<char>,
)
    requires
        forall|x: int|
            0 <= x < members.len() ==> string_text_ok((#[trigger] members[x]).name) && readable(
                members[x].value,
            ),
        all_ws(indent_text),
        m < members.len(),
        text_at(s, pos, members_tail_text(members, m, k, expanded, indent_text) + seq!['}']),
    ensures
        members_at(s, pos, acc) == Ok::<ParsedMembers, ParseErrorView>(
            parsed_members(
                acc + members.subrange(m as int, members.len() as int),
                members_tail_text(members, m, k, expanded, indent_text).len() + 1,
            ),
        ),
    decreases members, members.len() - m,
{
    let n = members.len() as int;
    let depth = child_indent(k, expanded);
    let entry = members[m as int];
    let name = entry.name;
    let text = value_text(entry.value, depth, indent_text);
    let close = seq!['}'];
    let start = pos + name.len() + 4;
    lemma_lines_all_ws(k, expanded, indent_text);
    lemma_value_text_starts(entry.value, depth, indent_text);
    assert(entry == member(name, entry.value));
    if m + 1 < n {
        let line = inner_line(k, expanded, indent_text);
        let rest = members_tail_text(members, m + 1, k, expanded, indent_text) + close;
        lemma_members_tail_more(members, m, k, expanded, indent_text, close);
        lemma_members_tail_starts(members, m + 1, k, expanded, indent_text, close);
        lemma_key_text(s, pos, name, text + (seq![','] + (line + rest)));
        lemma_child_then_comma(s, start, text, line, rest);
        lemma_value_parses(s, start, entry.value, depth, indent_text);
        let next = start + text.len() + 1 + line.len();
        lemma_members_parse(s, next, members, m + 1, acc.push(entry), k, expanded, indent_text);
        let r = members_at(s, next, acc.push(entry))->Ok_0;
        lemma_step_member_more(s, pos, acc, name, entry.value, text.len(), line.len(), r);
        assert(acc.push(entry) + members.subrange(m + 1 as int, n) =~= acc + members.subrange(
            m as int,
            n,
        ));
    } else {
        let line = outer_line(k, expanded, indent_text);
        lemma_members_tail_last(members, m, k, expanded, indent_text, close);
        lemma_key_text(s, pos, name, text + (line + close));
        lemma_child_then_close(s, start, text, line, '}');
        lemma_value_parses(s, start, entry.value, depth, indent_text);
        lemma_step_member_last(s, pos, acc, name, entry.value, text.len(), line.len());
        assert(acc.push(entry) =~= acc + members.subrange(m as int, n));
    }
}

/// Where `s` holds the text of a readable object at `i`, the parser reads
/// that object there.
pub proof fn lemma_object_parses(s: Seq<char>, i: int, v: ValueView, k: nat, indent_text: Seq<char>)
    requires
        readable(v),
        v is Object,
        all_ws(indent_text),
        text_at(s, i, value_text(v, k, indent_text)),
    ensures
        value_at(s, i) == Ok::<Parsed, ParseErrorView>(
            parsed(v, value_text(v, k, indent_text).len()),
        ),
    decreases v, 0nat,
{
    let members = v->Object_members;
    let e = object_expanded(members);
    let line = inner_line(k, e, indent_text);
    let close = seq!['}'];
    let rest = members_tail_text(members, 0, k, e, indent_text) + close;
    lemma_container_text(v, k, indent_text);
    lemma_lines_all_ws(k, e, indent_text);
    lemma_text_at_split(s, i, seq!['{'], line + rest);
    lemma_text_at_char(s, i, seq!['{'], 0);
    if members.len() == 0 {
        assert(line =~= Seq::<char>::empty());
        assert(line + rest =~= close);
        lemma_text_at_char(s, i + 1, close, 0);
        lemma_step_object_empty(s, i);
        assert(members =~= Seq::<MemberView>::empty());
    } else {
        lemma_members_tail_starts(members, 0, k, e, indent_text, close);
        lemma_skip_break(s, i + 1, line, rest);
        lemma_members_parse(s, i + 1 + line.len(), members, 0, Seq::empty(), k, e, indent_text);
        let r = members_at(s, i + 1 + line.len(), Seq::empty())->Ok_0;
        lemma_step_object(s, i, line.len(), r);
        assert(Seq::<MemberView>::empty() + members.subrange(0, members.len() as int)
            =~= members);
    }
}

/// The parser reads the text of the layout of a readable tree as that tree.
pub proof fn lemma_layout_parses(v: ValueView)
    requires
        readable(v),
    ensures
        parse_spec(join_lines(document(v))) == Ok::<ValueView, ParseErrorView>(v),
{
    lemma_document_text(v);
    let text = value_text(v, 0, four_spaces());
    lemma_value_text_starts(v, 0, four_spaces());
    lemma_ws_run_exact(text, 0, 0);
    lemma_ws_run_exact(text, text.len() as int, 0);
    lemma_text_at_self(text);
    lemma_four_spaces();
    lemma_value_parses(text, 0, v, 0, four_spaces());
}

/// Writing the tree that was read from a text, and reading what was
/// written, gives the same tree: its layout is lost, nothing else is, and
/// every number and string keeps its text.
pub proof fn lemma_round_trip(s: Seq<char>)
    requires
        parse_spec(s) is Ok,
    ensures
        parse_spec(join_lines(document(parse_spec(s)->Ok_0))) == parse_spec(s),
{
    let start = ws_run(s, 0) as int;
    lemma_value_readable(s, start);
    lemma_layout_parses(parse_spec(s)->Ok_0);
}

} // verus!
