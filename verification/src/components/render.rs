//! Composing highlights with the elements of a line: each element is cut at
//! the borders of the highlights, and each piece gets the style of the number
//! of highlights that cover it.

use crate::text::from_chars;
use crate::value::writer::{
    element, line_chars, line_text, line_view, Element, ElementType, ElementView,
};
use vstd::prelude::*;

verus! {

/// A highlighted stretch of one row: the columns from `col` up to, but not
/// including, `col + length`.
#[derive(Debug, Clone, Copy, PartialEq, Eq, Structural)]
pub struct Highlight {
    pub col: i32,
    pub length: i32,
}

/// The style of a piece of text, by the number of highlights that cover it.
#[derive(Debug, Clone, Copy, PartialEq, Eq, Structural)]
pub enum StyleTier {
    /// No highlight.
    Base,
    /// One highlight.
    Single,
    /// Two highlights or more.
    Group,
}

/// A piece of an element with its style.
#[derive(Debug, Clone, PartialEq, Eq)]
pub struct StyledSpan {
    pub text: String,
    pub ty: ElementType,
    pub tier: StyleTier,
}

/// A span as a plain value.
pub struct SpanView {
    pub text: Seq<char>,
    pub ty: ElementType,
    pub tier: StyleTier,
}

impl View for StyledSpan {
    type V = SpanView;

    open spec fn view(&self) -> SpanView {
        SpanView { text: self.text@, ty: self.ty, tier: self.tier }
    }
}

pub open spec fn span(text: Seq<char>, ty: ElementType, tier: StyleTier) -> SpanView {
    SpanView { text, ty, tier }
}

/// The spans of a line as plain values.
pub open spec fn spans_view(spans: Vec<StyledSpan>) -> Seq<SpanView> {
    spans@.map_values(|s: StyledSpan| s@)
}

/// Whether `h` covers column `x`.
pub open spec fn covers(h: Highlight, x: int) -> bool {
    h.col <= x < h.col + h.length
}

/// The number of highlights that cover column `x`.
pub open spec fn coverage(highlights: Seq<Highlight>, x: int) -> nat
    decreases highlights.len(),
{
    if highlights.len() == 0 {
        0
    } else {
        coverage(highlights.drop_last(), x) + if covers(highlights.last(), x) {
            1nat
        } else {
            0nat
        }
    }
}

pub open spec fn tier_of(count: nat) -> StyleTier {
    if count == 0 {
        StyleTier::Base
    } else if count == 1 {
        StyleTier::Single
    } else {
        StyleTier::Group
    }
}

/// `cut` moved back to a border of `h` that lies between `x` and `cut`: the
/// end of `h` where `h` covers `x`, the start of `h` where it lies after `x`.
pub open spec fn cut_at(h: Highlight, x: int, cut: int) -> int {
    let by_end = if covers(h, x) && h.col + h.length < cut {
        h.col + h.length
    } else {
        cut
    };
    if x < h.col && h.col < by_end {
        h.col as int
    } else {
        by_end
    }
}

/// The first column after `x` at which a piece that starts at `x` has to
/// end: `limit`, or a border of a highlight before it.
pub open spec fn next_cut(highlights: Seq<Highlight>, x: int, limit: int) -> int
    decreases highlights.len(),
{
    if highlights.len() == 0 {
        limit
    } else {
        cut_at(highlights.last(), x, next_cut(highlights.drop_last(), x, limit))
    }
}

/// The spans of the element `e`, whose first character stands in column
/// `base`, from its character `from` on.
pub open spec fn element_spans(
    e: ElementView,
    highlights: Seq<Highlight>,
    base: int,
    from: int,
) -> Seq<SpanView>
    decreases e.content.len() - from,
{
    let len = e.content.len() as int;
    if from < 0 || from > len {
        Seq::empty()
    } else {
        let cut = next_cut(highlights, base + from, base + len) - base;
        let first = span(
            e.content.subrange(from, cut),
            e.ty,
            tier_of(coverage(highlights, base + from)),
        );
        if cut <= from || cut >= len {
            seq![first]
        } else {
            seq![first] + element_spans(e, highlights, base, cut)
        }
    }
}

/// The column in which element `n` of `line` starts.
pub open spec fn element_start(line: Seq<ElementView>, n: int) -> int {
    line_text(line.take(n)).len() as int
}

/// The spans of the first `n` elements of `line`.
pub open spec fn line_spans(line: Seq<ElementView>, highlights: Seq<Highlight>, n: int) -> Seq<
    SpanView,
>
    decreases n,
{
    if n <= 0 || n > line.len() {
        Seq::empty()
    } else {
        line_spans(line, highlights, n - 1) + element_spans(
            line[n - 1],
            highlights,
            element_start(line, n - 1),
            0,
        )
    }
}

/// The spans of `line` under `highlights`.
///
/// Each element is cut where a highlight starts or ends inside it, and
/// nowhere else, so a span never reaches over two elements. An element
/// without characters gives one span without characters.
pub open spec fn render_line_spec(line: Seq<ElementView>, highlights: Seq<Highlight>) -> Seq<
    SpanView,
> {
    line_spans(line, highlights, line.len() as int)
}

/// The number of highlights that cover column `x`.
pub fn count_covering(highlights: &Vec<Highlight>, x: usize) -> (r: usize)
    ensures
        r == coverage(highlights@, x as int),
{
    let mut count: usize = 0;
    let mut i: usize = 0;
    assert(highlights@.take(0) =~= Seq::<Highlight>::empty());
    while i < highlights.len()
        invariant
            i <= highlights.len(),
            count <= i,
            count == coverage(highlights@.take(i as int), x as int),
        decreases highlights.len() - i,
    {
        let h = highlights[i];
        proof {
            assert(highlights@.take(i + 1).drop_last() =~= highlights@.take(i as int));
            assert(highlights@.take(i + 1).last() == h);
        }
        if h.col as i128 <= x as i128 && (x as i128) < h.col as i128 + h.length as i128 {
            count += 1;
        }
        i += 1;
    }
    assert(highlights@.take(highlights.len() as int) =~= highlights@);
    count
}

pub fn tier_for(count: usize) -> (r: StyleTier)
    ensures
        r == tier_of(count as nat),
{
    if count == 0 {
        StyleTier::Base
    } else if count == 1 {
        StyleTier::Single
    } else {
        StyleTier::Group
    }
}

/// The first column after `x` at which a piece that starts at `x` has to end.
pub fn find_next_cut(highlights: &Vec<Highlight>, x: usize, limit: usize) -> (r: usize)
    requires
        x <= limit,
    ensures
        r == next_cut(highlights@, x as int, limit as int),
        x <= r <= limit,
        x < limit ==> x < r,
{
    let mut cut: usize = limit;
    let mut i: usize = 0;
    assert(highlights@.take(0) =~= Seq::<Highlight>::empty());
    while i < highlights.len()
        invariant
            i <= highlights.len(),
            x <= limit,
            cut == next_cut(highlights@.take(i as int), x as int, limit as int),
            x <= cut <= limit,
            x < limit ==> x < cut,
        decreases highlights.len() - i,
    {
        let h = highlights[i];
        proof {
            assert(highlights@.take(i + 1).drop_last() =~= highlights@.take(i as int));
            assert(highlights@.take(i + 1).last() == h);
        }
        let start = h.col as i128;
        let end = h.col as i128 + h.length as i128;
        if start <= x as i128 && (x as i128) < end && end < cut as i128 {
            cut = end as usize;
        }
        if (x as i128) < start && start < cut as i128 {
            cut = start as usize;
        }
        i += 1;
    }
    assert(highlights@.take(highlights.len() as int) =~= highlights@);
    cut
}

/// The text of the first `n` elements of a line is the beginning of the text
/// of the line.
pub proof fn lemma_line_text_prefix(line: Seq<ElementView>, n: int)
    requires
        0 <= n <= line.len(),
    ensures
        line_text(line.take(n)).len() <= line_text(line).len(),
        line_text(line.take(n)) == line_text(line).subrange(0, line_text(line.take(n)).len() as int),
    decreases line.len() - n,
{
    if n == line.len() {
        assert(line.take(n) =~= line);
        assert(line_text(line).subrange(0, line_text(line).len() as int) =~= line_text(line));
    } else {
        lemma_line_text_prefix(line, n + 1);
        assert(line.take(n + 1).drop_last() =~= line.take(n));
        assert(line_text(line.take(n)) =~= line_text(line).subrange(
            0,
            line_text(line.take(n)).len() as int,
        ));
    }
}

/// The characters of element `n` stand in the text of the line from the
/// column in which the element starts.
pub proof fn lemma_element_in_line(line: Seq<ElementView>, n: int)
    requires
        0 <= n < line.len(),
    ensures
        element_start(line, n) + line[n].content.len() == element_start(line, n + 1),
        element_start(line, n + 1) <= line_text(line).len(),
        line[n].content == line_text(line).subrange(
            element_start(line, n),
            element_start(line, n + 1),
        ),
{
    lemma_line_text_prefix(line, n + 1);
    assert(line.take(n + 1).drop_last() =~= line.take(n));
    assert(line.take(n + 1).last() == line[n]);
    let whole = line_text(line);
    let upto = line_text(line.take(n + 1));
    let pre = line_text(line.take(n));
    assert(upto == pre + line[n].content);
    assert(upto == whole.subrange(0, upto.len() as int));
    let want = whole.subrange(element_start(line, n), element_start(line, n + 1));
    assert(want.len() == line[n].content.len());
    assert forall|k: int| 0 <= k < want.len() implies line[n].content[k] == want[k] by {
        assert(upto[pre.len() + k] == line[n].content[k]);
        assert(whole.subrange(0, upto.len() as int)[pre.len() + k] == whole[pre.len() + k]);
    }
    assert(line[n].content =~= want);
}

/// Adds the spans of one element, which has the kind `ty` and holds the
/// characters `chars[base..base + len]` of its line.
fn push_element_spans(
    spans: &mut Vec<StyledSpan>,
    chars: &Vec<char>,
    highlights: &Vec<Highlight>,
    ty: ElementType,
    base: usize,
    len: usize,
)
    requires
        base + len <= chars.len(),
    ensures
        spans_view(*final(spans)) == spans_view(*old(spans)) + element_spans(
            element(ty, chars@.subrange(base as int, base + len)),
            highlights@,
            base as int,
            0,
        ),
{
    let ghost e = element(ty, chars@.subrange(base as int, base + len));
    let ghost target = spans_view(*spans) + element_spans(e, highlights@, base as int, 0);
    let mut from: usize = 0;
    let mut open = true;
    while open
        invariant
            from <= len,
            base + len <= chars.len(),
            e == element(ty, chars@.subrange(base as int, base + len)),
            open && from == len ==> len == 0,
            open ==> target == spans_view(*spans) + element_spans(
                e,
                highlights@,
                base as int,
                from as int,
            ),
            !open ==> target == spans_view(*spans),
        decreases
                len - from + (if open {
                    1int
                } else {
                    0int
                }),
    {
        let cut = find_next_cut(highlights, base + from, base + len) - base;
        let tier = tier_for(count_covering(highlights, base + from));
        let text = from_chars(chars, base + from, base + cut);
        let ghost prev = spans_view(*spans);
        let ghost first = span(
            e.content.subrange(from as int, cut as int),
            ty,
            tier_of(coverage(highlights@, base + from)),
        );
        spans.push(StyledSpan { text, ty, tier });
        proof {
            assert(text@ =~= e.content.subrange(from as int, cut as int));
            assert(spans_view(*spans) =~= prev.push(first));
            if cut >= len {
                assert(target =~= prev + seq![first]);
            } else {
                assert(target =~= prev + (seq![first] + element_spans(
                    e,
                    highlights@,
                    base as int,
                    cut as int,
                )));
                assert(target =~= prev.push(first) + element_spans(
                    e,
                    highlights@,
                    base as int,
                    cut as int,
                ));
            }
        }
        if cut >= len {
            open = false;
        } else {
            from = cut;
        }
    }
}

/// The spans of a line under highlights.
pub fn render_line(elements: &Vec<Element>, highlights: &Vec<Highlight>) -> (r: Vec<StyledSpan>)
    ensures
        spans_view(r) == render_line_spec(line_view(*elements), highlights@),
{
    let chars = line_chars(elements);
    let ghost line = line_view(*elements);
    let mut spans: Vec<StyledSpan> = Vec::new();
    let mut base: usize = 0;
    let mut i: usize = 0;
    assert(line.take(0) =~= Seq::<ElementView>::empty());
    assert(spans_view(spans) =~= line_spans(line, highlights@, 0));
    while i < elements.len()
        invariant
            i <= elements.len(),
            line == line_view(*elements),
            chars@ == line_text(line),
            base == element_start(line, i as int),
            base <= chars.len(),
            spans_view(spans) == line_spans(line, highlights@, i as int),
        decreases elements.len() - i,
    {
        let ty = elements[i].ty;
        proof {
            lemma_element_in_line(line, i as int);
        }
        let len = elements[i].content.as_str().unicode_len();
        push_element_spans(&mut spans, &chars, highlights, ty, base, len);
        proof {
            assert(line[i as int] == element(ty, chars@.subrange(base as int, base + len)));
        }
        base = base + len;
        i += 1;
    }
    spans
}

} // verus!
