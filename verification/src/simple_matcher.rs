//! A small pattern language for key sequences, and a three-valued matcher
//! that tells a complete match from a prefix of one.

use crate::text::{char_is_numeric, to_chars};
use vstd::prelude::*;

verus! {

/// How far an input got against a pattern.
#[derive(Debug, Clone, Copy, PartialEq, Eq, Structural)]
pub enum MatchStatus {
    /// Pattern and input were used up together.
    FullMatch,
    /// The input ended first, with no mismatch so far.
    PartialMatch,
    /// The input cannot be extended to a match.
    NoMatch,
}

impl MatchStatus {
    pub fn is_full_match(&self) -> (r: bool)
        ensures
            r == (*self is FullMatch),
    {
        matches!(self, MatchStatus::FullMatch)
    }

    pub fn is_partial_match(&self) -> (r: bool)
        ensures
            r == (*self is PartialMatch),
    {
        matches!(self, MatchStatus::PartialMatch)
    }

    pub fn is_no_match(&self) -> (r: bool)
        ensures
            r == (*self is NoMatch),
    {
        matches!(self, MatchStatus::NoMatch)
    }
}

/// One item of a pattern.
#[derive(Debug, Clone, Copy, PartialEq, Eq)]
pub enum PatternItem {
    /// A named token. Character input never holds one.
    Token(&'static str),
    /// Exactly this character.
    Literal(char),
    /// A run of numeric characters, as long as it can be.
    Number,
    /// Any one character.
    AnyChar,
}

impl PatternItem {
    pub fn is_token(&self) -> (r: bool)
        ensures
            r == (*self is Token),
    {
        matches!(self, PatternItem::Token(_))
    }

    pub fn is_literal(&self) -> (r: bool)
        ensures
            r == (*self is Literal),
    {
        matches!(self, PatternItem::Literal(_))
    }

    pub fn is_number(&self) -> (r: bool)
        ensures
            r == (*self is Number),
    {
        matches!(self, PatternItem::Number)
    }

    pub fn is_any_char(&self) -> (r: bool)
        ensures
            r == (*self is AnyChar),
    {
        matches!(self, PatternItem::AnyChar)
    }
}

/// One character of input together with its class.
#[derive(Debug, Clone, Copy, PartialEq, Eq)]
pub struct PatternInputItem {
    pub c: char,
    /// Whether the character counts as numeric.
    pub numeric: bool,
}

/// The character `c` paired with what `char::is_numeric` says of it.
pub open spec fn classify_char(c: char) -> PatternInputItem {
    PatternInputItem { c, numeric: char_is_numeric(c) }
}

/// Each character of `s` paired with what `char::is_numeric` says of it.
pub open spec fn classify(s: Seq<char>) -> Seq<PatternInputItem> {
    Seq::new(s.len(), |i: int| classify_char(s[i]))
}

impl PatternInputItem {
    /// The input item for `c`.
    pub fn from_char(c: char) -> (r: Self)
        ensures
            r == classify_char(c),
    {
        PatternInputItem { c, numeric: c.is_numeric() }
    }

    /// The input items for the characters of `s`.
    pub fn str_to_item_char_vec(s: &str) -> (v: Vec<Self>)
        ensures
            v@ == classify(s@),
    {
        let chars = to_chars(s);
        let mut v: Vec<Self> = Vec::new();
        let mut i: usize = 0;
        while i < chars.len()
            invariant
                i <= chars.len(),
                chars@ == s@,
                v@.len() == i,
                forall|j: int| 0 <= j < i ==> v@[j] == classify(s@)[j],
            decreases chars.len() - i,
        {
            v.push(Self::from_char(chars[i]));
            i += 1;
        }
        assert(v@ =~= classify(s@));
        v
    }

    pub fn is_char_numeric(self) -> (r: bool)
        ensures
            r == self.numeric,
    {
        self.numeric
    }
}

/// Why a pattern text does not compile.
#[derive(Debug, Clone, Copy, PartialEq, Eq)]
pub enum PatternParseError {
    /// A backslash was followed by a character that names no escape.
    InvalidEscape(char),
}

impl PatternParseError {
    /// The error in words.
    pub fn message(&self) -> (r: String)
        ensures
            r@ == "Invalid escape character `"@ + seq![self->InvalidEscape_0] + "`"@,
    {
        match self {
            PatternParseError::InvalidEscape(c) => {
                let mut r = String::from_str("Invalid escape character `");
                r.push(*c);
                r.append("`");
                assert(r@ =~= "Invalid escape character `"@ + seq![*c] + "`"@);
                r
            },
        }
    }
}

/// What the character after a backslash stands for, if anything.
pub open spec fn escape_item(c: char) -> Option<PatternItem> {
    if c == '\\' {
        Some(PatternItem::Literal('\\'))
    } else if c == 'n' {
        Some(PatternItem::Literal('\n'))
    } else if c == 't' {
        Some(PatternItem::Literal('\t'))
    } else if c == 'd' {
        Some(PatternItem::Number)
    } else if c == 'c' {
        Some(PatternItem::AnyChar)
    } else {
        None
    }
}

/// Compiles `s[i..]`, given that `s[..i]` compiled to `acc`.
///
/// A character other than a backslash stands for itself. A backslash and the
/// character after it stand for one item, or for an error where that
/// character names no escape; the first such error is the result. A
/// backslash at the very end stands for nothing.
pub open spec fn compile_from(s: Seq<char>, i: int, acc: Seq<PatternItem>) -> Result<
    Seq<PatternItem>,
    PatternParseError,
>
    decreases s.len() - i,
{
    if i < 0 || i >= s.len() {
        Ok(acc)
    } else if s[i] != '\\' {
        compile_from(s, i + 1, acc.push(PatternItem::Literal(s[i])))
    } else if i + 1 >= s.len() {
        Ok(acc)
    } else {
        match escape_item(s[i + 1]) {
            Some(item) => compile_from(s, i + 2, acc.push(item)),
            None => Err(PatternParseError::InvalidEscape(s[i + 1])),
        }
    }
}

/// The items that the pattern text `s` compiles to.
pub open spec fn compile_spec(s: Seq<char>) -> Result<Seq<PatternItem>, PatternParseError> {
    compile_from(s, 0, Seq::empty())
}

/// The end of the run of numeric items that starts at `from`.
pub open spec fn numeric_run_end(input: Seq<PatternInputItem>, from: int) -> int
    decreases input.len() - from,
{
    if 0 <= from < input.len() && input[from].numeric {
        numeric_run_end(input, from + 1)
    } else {
        from
    }
}

/// Matches `pattern[p..]` against `input[s..]`.
pub open spec fn match_from(
    pattern: Seq<PatternItem>,
    input: Seq<PatternInputItem>,
    p: int,
    s: int,
) -> MatchStatus
    decreases pattern.len() - p,
{
    if p < 0 || s < 0 {
        MatchStatus::NoMatch
    } else if p >= pattern.len() {
        if s >= input.len() {
            MatchStatus::FullMatch
        } else {
            MatchStatus::NoMatch
        }
    } else if s >= input.len() {
        MatchStatus::PartialMatch
    } else {
        match pattern[p] {
            PatternItem::Literal(c) => if input[s].c == c {
                match_from(pattern, input, p + 1, s + 1)
            } else {
                MatchStatus::NoMatch
            },
            PatternItem::Number => if input[s].numeric {
                match_from(pattern, input, p + 1, numeric_run_end(input, s))
            } else {
                MatchStatus::NoMatch
            },
            PatternItem::AnyChar => match_from(pattern, input, p + 1, s + 1),
            PatternItem::Token(_) => MatchStatus::NoMatch,
        }
    }
}

/// Matches the whole of `pattern` against the whole of `input`.
pub open spec fn match_items(pattern: Seq<PatternItem>, input: Seq<PatternInputItem>) -> MatchStatus {
    match_from(pattern, input, 0, 0)
}

/// A compiled pattern: a sequence of items.
#[derive(Debug, Clone)]
pub struct Pattern(Vec<PatternItem>);

impl View for Pattern {
    type V = Seq<PatternItem>;

    closed spec fn view(&self) -> Seq<PatternItem> {
        self.0@
    }
}

impl Pattern {
    /// The pattern with exactly these items.
    pub fn new(items: Vec<PatternItem>) -> (r: Self)
        ensures
            r@ == items@,
    {
        Pattern(items)
    }

    /// The items of the pattern.
    pub fn items(&self) -> (r: &Vec<PatternItem>)
        ensures
            r@ == self@,
    {
        &self.0
    }

    /// Compiles a pattern text.
    pub fn compile(s: &str) -> (r: Result<Self, PatternParseError>)
        ensures
            match r {
                Ok(p) => compile_spec(s@) == Ok::<Seq<PatternItem>, PatternParseError>(p@),
                Err(e) => compile_spec(s@) == Err::<Seq<PatternItem>, PatternParseError>(e),
            },
    {
        let chars = to_chars(s);
        let mut v: Vec<PatternItem> = Vec::new();
        let mut i: usize = 0;
        while i < chars.len()
            invariant
                i <= chars.len(),
                chars@ == s@,
                compile_spec(s@) == compile_from(s@, i as int, v@),
            decreases chars.len() - i,
        {
            let c = chars[i];
            if c != '\\' {
                v.push(PatternItem::Literal(c));
                i += 1;
            } else if i + 1 >= chars.len() {
                return Ok(Pattern(v));
            } else {
                let e = chars[i + 1];
                if e == '\\' {
                    v.push(PatternItem::Literal('\\'));
                } else if e == 'n' {
                    v.push(PatternItem::Literal('\n'));
                } else if e == 't' {
                    v.push(PatternItem::Literal('\t'));
                } else if e == 'd' {
                    v.push(PatternItem::Number);
                } else if e == 'c' {
                    v.push(PatternItem::AnyChar);
                } else {
                    return Err(PatternParseError::InvalidEscape(e));
                }
                i += 2;
            }
        }
        Ok(Pattern(v))
    }

    /// Matches `pattern` against `source`.
    ///
    /// Both used up gives `FullMatch`; input left over gives `NoMatch`;
    /// pattern left over gives `PartialMatch`. A literal takes one equal
    /// character, `AnyChar` takes any one character, and `Number` takes a run
    /// of numeric characters that is as long as possible and never gives any
    /// of it back.
    pub fn match_aux(pattern: &[PatternItem], source: &[PatternInputItem]) -> (r: MatchStatus)
        ensures
            r == match_items(pattern@, source@),
    {
        let mut p: usize = 0;
        let mut s: usize = 0;
        while p < pattern.len() && s < source.len()
            invariant
                p <= pattern.len(),
                s <= source.len(),
                match_items(pattern@, source@) == match_from(pattern@, source@, p as int, s as int),
            decreases pattern.len() - p,
        {
            match pattern[p] {
                PatternItem::Literal(c) => {
                    if source[s].c != c {
                        return MatchStatus::NoMatch;
                    }
                    s += 1;
                },
                PatternItem::Number => {
                    if !source[s].numeric {
                        return MatchStatus::NoMatch;
                    }
                    let ghost start = s as int;
                    while s < source.len() && source[s].numeric
                        invariant
                            start <= s <= source.len(),
                            numeric_run_end(source@, start) == numeric_run_end(source@, s as int),
                        decreases source.len() - s,
                    {
                        s += 1;
                    }
                },
                PatternItem::AnyChar => {
                    s += 1;
                },
                PatternItem::Token(_) => {
                    return MatchStatus::NoMatch;
                },
            }
            p += 1;
        }
        if p < pattern.len() {
            MatchStatus::PartialMatch
        } else if s < source.len() {
            MatchStatus::NoMatch
        } else {
            MatchStatus::FullMatch
        }
    }

    /// Matches the pattern against the characters of `s`.
    pub fn match_str(&self, s: &str) -> (r: MatchStatus)
        ensures
            r == match_items(self@, classify(s@)),
    {
        let input = PatternInputItem::str_to_item_char_vec(s);
        Self::match_aux(self.0.as_slice(), input.as_slice())
    }
}

impl std::str::FromStr for Pattern {
    type Err = PatternParseError;

    fn from_str(s: &str) -> (r: Result<Self, PatternParseError>)
        ensures
            match r {
                Ok(p) => compile_spec(s@) == Ok::<Seq<PatternItem>, PatternParseError>(p@),
                Err(e) => compile_spec(s@) == Err::<Seq<PatternItem>, PatternParseError>(e),
            },
    {
        Pattern::compile(s)
    }
}

/// Whether `item` takes exactly the input from `from` up to `to`: a literal
/// its character, `AnyChar` one character, `Number` a run of numeric
/// characters that no numeric character follows.
pub open spec fn item_takes(
    item: PatternItem,
    input: Seq<PatternInputItem>,
    from: int,
    to: int,
) -> bool {
    match item {
        PatternItem::Literal(c) => 0 <= from < input.len() && to == from + 1 && input[from].c == c,
        PatternItem::AnyChar => 0 <= from < input.len() && to == from + 1,
        PatternItem::Number => {
            &&& 0 <= from < to <= input.len()
            &&& forall|j: int| from <= j < to ==> (#[trigger] input[j]).numeric
            &&& to < input.len() ==> !input[to].numeric
        },
        PatternItem::Token(_) => false,
    }
}

/// Whether the items `pattern[p..n]` take the input pairwise, item `k` from
/// `cuts[k]` up to `cuts[k + 1]`.
pub open spec fn taken_pairwise(
    pattern: Seq<PatternItem>,
    input: Seq<PatternInputItem>,
    cuts: Seq<int>,
    p: int,
    n: int,
) -> bool {
    &&& 0 <= p <= n <= pattern.len()
    &&& cuts.len() == n + 1
    &&& forall|k: int|
        p <= k < n ==> item_takes(#[trigger] pattern[k], input, cuts[k], cuts[k + 1])
}

/// Every item of the pattern and every character of the input are taken
/// pairwise, none left over.
pub open spec fn consumed_in_full(pattern: Seq<PatternItem>, input: Seq<PatternInputItem>) -> bool {
    exists|cuts: Seq<int>|
        #[trigger] taken_pairwise(pattern, input, cuts, 0, pattern.len() as int) && cuts[0] == 0
            && cuts[pattern.len() as int] == input.len()
}

/// The input is used up, with no mismatch, before the pattern is.
pub open spec fn consumed_in_part(pattern: Seq<PatternItem>, input: Seq<PatternInputItem>) -> bool {
    exists|cuts: Seq<int>, n: int|
        #[trigger] taken_pairwise(pattern, input, cuts, 0, n) && n < pattern.len() && cuts[0] == 0
            && cuts[n] == input.len()
}

/// The run of numeric items from `from` ends within the input, holds numeric
/// items only, and no numeric item follows it.
pub proof fn lemma_numeric_run(input: Seq<PatternInputItem>, from: int)
    requires
        0 <= from <= input.len(),
    ensures
        from <= numeric_run_end(input, from) <= input.len(),
        forall|j: int| from <= j < numeric_run_end(input, from) ==> (#[trigger] input[j]).numeric,
        numeric_run_end(input, from) < input.len() ==> !input[numeric_run_end(input, from)].numeric,
    decreases input.len() - from,
{
    if from < input.len() && input[from].numeric {
        lemma_numeric_run(input, from + 1);
    }
}

/// A run of numeric items that no numeric item follows is the run that the
/// matcher takes.
pub proof fn lemma_numeric_run_unique(input: Seq<PatternInputItem>, from: int, to: int)
    requires
        0 <= from <= to <= input.len(),
        forall|j: int| from <= j < to ==> (#[trigger] input[j]).numeric,
        to < input.len() ==> !input[to].numeric,
    ensures
        numeric_run_end(input, from) == to,
    decreases to - from,
{
    if from < to {
        assert(input[from].numeric);
        lemma_numeric_run_unique(input, from + 1, to);
    }
}

/// Where the matcher reports a full match from `p` and `s`, the items from
/// `p` on take the input from `s` on pairwise, none left over.
pub proof fn lemma_full_match_cuts(
    pattern: Seq<PatternItem>,
    input: Seq<PatternInputItem>,
    p: int,
    s: int,
) -> (cuts: Seq<int>)
    requires
        0 <= p <= pattern.len(),
        0 <= s <= input.len(),
        match_from(pattern, input, p, s) is FullMatch,
    ensures
        taken_pairwise(pattern, input, cuts, p, pattern.len() as int),
        cuts[p] == s,
        cuts[pattern.len() as int] == input.len(),
    decreases pattern.len() - p,
{
    if p >= pattern.len() {
        Seq::new((pattern.len() + 1) as nat, |i: int| s)
    } else {
        let next = if pattern[p] is Number {
            numeric_run_end(input, s)
        } else {
            s + 1
        };
        lemma_numeric_run(input, s);
        let rest = lemma_full_match_cuts(pattern, input, p + 1, next);
        let cuts = rest.update(p, s);
        assert forall|k: int| p <= k < pattern.len() implies item_takes(
            #[trigger] pattern[k],
            input,
            cuts[k],
            cuts[k + 1],
        ) by {
            if k > p {
                assert(item_takes(pattern[k], input, rest[k], rest[k + 1]));
            }
        }
        cuts
    }
}

/// Where the matcher reports a partial match from `p` and `s`, some items
/// from `p` on, but not all, take the input from `s` on pairwise, none left
/// over.
pub proof fn lemma_partial_match_cuts(
    pattern: Seq<PatternItem>,
    input: Seq<PatternInputItem>,
    p: int,
    s: int,
) -> (r: (Seq<int>, int))
    requires
        0 <= p <= pattern.len(),
        0 <= s <= input.len(),
        match_from(pattern, input, p, s) is PartialMatch,
    ensures
        taken_pairwise(pattern, input, r.0, p, r.1),
        r.1 < pattern.len(),
        r.0[p] == s,
        r.0[r.1] == input.len(),
    decreases pattern.len() - p,
{
    if s >= input.len() {
        (Seq::new((p + 1) as nat, |i: int| s), p)
    } else {
        let next = if pattern[p] is Number {
            numeric_run_end(input, s)
        } else {
            s + 1
        };
        lemma_numeric_run(input, s);
        let (rest, n) = lemma_partial_match_cuts(pattern, input, p + 1, next);
        let cuts = rest.update(p, s);
        assert forall|k: int| p <= k < n implies item_takes(
            #[trigger] pattern[k],
            input,
            cuts[k],
            cuts[k + 1],
        ) by {
            if k > p {
                assert(item_takes(pattern[k], input, rest[k], rest[k + 1]));
            }
        }
        (cuts, n)
    }
}

/// Where the items `pattern[p..n]` take the input from `s` on pairwise, none
/// left over, the matcher reports a full match if `n` is the end of the
/// pattern, and a partial match if it is not.
pub proof fn lemma_cuts_match(
    pattern: Seq<PatternItem>,
    input: Seq<PatternInputItem>,
    cuts: Seq<int>,
    p: int,
    n: int,
)
    requires
        taken_pairwise(pattern, input, cuts, p, n),
        0 <= cuts[p],
        cuts[n] == input.len(),
    ensures
        n == pattern.len() ==> match_from(pattern, input, p, cuts[p]) is FullMatch,
        n < pattern.len() ==> match_from(pattern, input, p, cuts[p]) is PartialMatch,
    decreases n - p,
{
    if p < n {
        assert(item_takes(pattern[p], input, cuts[p], cuts[p + 1]));
        if pattern[p] is Number {
            lemma_numeric_run_unique(input, cuts[p], cuts[p + 1]);
        }
        lemma_cuts_match(pattern, input, cuts, p + 1, n);
    }
}

/// The three results of the matcher, said without the matcher: a full match
/// is reported exactly where every item of the pattern and every character
/// of the input are taken pairwise with none left over, a partial match
/// exactly where the input is used up first with no mismatch, and no match
/// in every other case.
pub proof fn lemma_match_characterization(pattern: Seq<PatternItem>, input: Seq<PatternInputItem>)
    ensures
        match_items(pattern, input) is FullMatch <==> consumed_in_full(pattern, input),
        match_items(pattern, input) is PartialMatch <==> consumed_in_part(pattern, input),
        match_items(pattern, input) is NoMatch <==> !consumed_in_full(pattern, input)
            && !consumed_in_part(pattern, input),
{
    if match_items(pattern, input) is FullMatch {
        let cuts = lemma_full_match_cuts(pattern, input, 0, 0);
        assert(taken_pairwise(pattern, input, cuts, 0, pattern.len() as int));
    }
    if match_items(pattern, input) is PartialMatch {
        let (cuts, n) = lemma_partial_match_cuts(pattern, input, 0, 0);
        assert(taken_pairwise(pattern, input, cuts, 0, n));
    }
    if consumed_in_full(pattern, input) {
        let cuts = choose|cuts: Seq<int>|
            #[trigger] taken_pairwise(pattern, input, cuts, 0, pattern.len() as int) && cuts[0] == 0
                && cuts[pattern.len() as int] == input.len();
        lemma_cuts_match(pattern, input, cuts, 0, pattern.len() as int);
    }
    if consumed_in_part(pattern, input) {
        let (cuts, n) = choose|cuts: Seq<int>, n: int|
            #[trigger] taken_pairwise(pattern, input, cuts, 0, n) && n < pattern.len() && cuts[0]
                == 0 && cuts[n] == input.len();
        lemma_cuts_match(pattern, input, cuts, 0, n);
    }
}

} // verus!
