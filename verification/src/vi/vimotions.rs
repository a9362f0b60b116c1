//! Motions within one line: the scan for the next word and the jump to the
//! next occurrence of a character.

use crate::text::{char_is_whitespace, is_ascii_alphanumeric, spec_is_ascii_alphanumeric};
use vstd::prelude::*;

verus! {

/// The class of a character for word motions.
#[derive(Debug, Clone, Copy, PartialEq, Eq, Structural)]
pub enum CharType {
    /// An ASCII letter or digit.
    Alpha,
    /// Neither white space nor an ASCII letter or digit.
    Symbol,
    /// White space.
    Whitespace,
}

/// The class of `c`, given whether it is white space.
pub open spec fn char_type_of(c: char, whitespace: bool) -> CharType {
    if whitespace {
        CharType::Whitespace
    } else if spec_is_ascii_alphanumeric(c) {
        CharType::Alpha
    } else {
        CharType::Symbol
    }
}

/// The class of `c`, with `char::is_whitespace` deciding what is white space.
pub open spec fn char_type(c: char) -> CharType {
    char_type_of(c, char_is_whitespace(c))
}

/// The classes of the characters of `s`.
pub open spec fn char_types(s: Seq<char>) -> Seq<CharType> {
    Seq::new(s.len(), |i: int| char_type(s[i]))
}

impl CharType {
    /// The class of `c`, given whether it is white space.
    pub fn classify(c: char, whitespace: bool) -> (r: Self)
        ensures
            r == char_type_of(c, whitespace),
    {
        if whitespace {
            CharType::Whitespace
        } else if is_ascii_alphanumeric(c) {
            CharType::Alpha
        } else {
            CharType::Symbol
        }
    }

    /// The class of `c`.
    pub fn of(c: char) -> (r: Self)
        ensures
            r == char_type(c),
    {
        Self::classify(c, c.is_whitespace())
    }

    pub fn is_alpha(&self) -> (r: bool)
        ensures
            r == (*self is Alpha),
    {
        matches!(self, CharType::Alpha)
    }

    pub fn is_symbol(&self) -> (r: bool)
        ensures
            r == (*self is Symbol),
    {
        matches!(self, CharType::Symbol)
    }

    pub fn is_whitespace(&self) -> (r: bool)
        ensures
            r == (*self is Whitespace),
    {
        matches!(self, CharType::Whitespace)
    }
}

/// Where a scan that stands at `i` in a run of class `current` stops: at the
/// first character that neither continues the run nor starts the one run of
/// white space that may follow it. `None` where the scan runs off the end.
pub open spec fn scan_from(classes: Seq<CharType>, i: int, current: CharType) -> Option<int>
    decreases classes.len() - i,
{
    if i < 0 || i >= classes.len() {
        None
    } else if classes[i] == CharType::Whitespace && current != CharType::Whitespace {
        scan_from(classes, i + 1, CharType::Whitespace)
    } else if classes[i] == current {
        scan_from(classes, i + 1, current)
    } else {
        Some(i)
    }
}

/// How far the next word is from the start of `classes`, if the line holds
/// one.
pub open spec fn word_scan(classes: Seq<CharType>) -> Option<int> {
    if classes.len() == 0 {
        None
    } else {
        scan_from(classes, 1, classes[0])
    }
}

/// The distance of the word motion over `classes`: to the next word, or over
/// all of it where the scan runs off the end.
pub open spec fn word_distance(classes: Seq<CharType>) -> int {
    match word_scan(classes) {
        Some(d) => d,
        None => classes.len() as int,
    }
}

/// The scan for the next word over classes of characters.
pub fn scan_word(classes: &[CharType]) -> (r: Option<usize>)
    ensures
        match word_scan(classes@) {
            Some(d) => r == Some(d as usize) && 0 < d < classes@.len(),
            None => r is None,
        },
{
    if classes.len() == 0 {
        return None;
    }
    let mut current = classes[0];
    let mut i: usize = 1;
    while i < classes.len()
        invariant
            1 <= i <= classes.len(),
            word_scan(classes@) == scan_from(classes@, i as int, current),
        decreases classes.len() - i,
    {
        let ct = classes[i];
        if ct == CharType::Whitespace && current != CharType::Whitespace {
            current = CharType::Whitespace;
        } else if ct == current {
        } else {
            return Some(i);
        }
        i += 1;
    }
    None
}

/// The classes of the characters of `s`.
pub fn classify_chars(s: &[char]) -> (r: Vec<CharType>)
    ensures
        r@ == char_types(s@),
{
    let mut r: Vec<CharType> = Vec::new();
    let mut i: usize = 0;
    while i < s.len()
        invariant
            i <= s.len(),
            r.len() == i,
            forall|j: int| 0 <= j < i ==> r@[j] == char_type(s@[j]),
        decreases s.len() - i,
    {
        r.push(CharType::of(s[i]));
        i += 1;
    }
    assert(r@ =~= char_types(s@));
    r
}

/// The scan for the next word from the start of `s`.
///
/// The result is `[0, d]` where the next word starts `d` characters on, and
/// `[1, 0]` where the line ends before another word starts.
pub fn next_word(s: &[char]) -> (r: [i32; 2])
    requires
        s@.len() <= i32::MAX,
    ensures
        match word_scan(char_types(s@)) {
            Some(d) => r[0] == 0 && r[1] == d,
            None => r[0] == 1 && r[1] == 0,
        },
{
    let classes = classify_chars(s);
    match scan_word(classes.as_slice()) {
        Some(d) => [0, d as i32],
        None => [1, 0],
    }
}

/// Whether `i` is the first place after the start of `s` that holds `c`.
pub open spec fn is_next_occurrence(s: Seq<char>, c: char, i: int) -> bool {
    &&& 1 <= i < s.len()
    &&& s[i] == c
    &&& forall|j: int| 1 <= j < i ==> s[j] != c
}

/// Whether `c` occurs nowhere in `s` after the start.
pub open spec fn no_next_occurrence(s: Seq<char>, c: char) -> bool {
    forall|j: int| 1 <= j < s.len() ==> s[j] != c
}

/// The distance from the start of `s` to the first place after it that holds
/// `c`, and 0 where there is none.
pub open spec fn jump_distance(s: Seq<char>, c: char) -> int {
    if exists|i: int| is_next_occurrence(s, c, i) {
        choose|i: int| is_next_occurrence(s, c, i)
    } else {
        0
    }
}

/// There is at most one next occurrence, and it fixes the distance.
pub proof fn lemma_jump_distance(s: Seq<char>, c: char, i: int)
    ensures
        is_next_occurrence(s, c, i) ==> jump_distance(s, c) == i,
        no_next_occurrence(s, c) ==> jump_distance(s, c) == 0,
{
    if is_next_occurrence(s, c, i) {
        let j = choose|j: int| is_next_occurrence(s, c, j);
        assert(is_next_occurrence(s, c, j));
        if j < i {
            assert(s[j] != c);
        } else if i < j {
            assert(s[i] != c);
        }
    }
    if no_next_occurrence(s, c) {
        if exists|j: int| is_next_occurrence(s, c, j) {
            let j = choose|j: int| is_next_occurrence(s, c, j);
            assert(s[j] != c);
        }
    }
}

/// The first place after the start of `s` that holds `c`.
pub fn find_next_char(s: &[char], c: char) -> (r: Option<usize>)
    ensures
        match r {
            Some(i) => is_next_occurrence(s@, c, i as int) && jump_distance(s@, c) == i,
            None => no_next_occurrence(s@, c) && jump_distance(s@, c) == 0,
        },
{
    proof {
        lemma_jump_distance(s@, c, 0);
    }
    let mut i: usize = 1;
    while i < s.len()
        invariant
            1 <= i,
            forall|j: int| 1 <= j < i && j < s@.len() ==> s@[j] != c,
        decreases s.len() - i,
    {
        if s[i] == c {
            proof {
                lemma_jump_distance(s@, c, i as int);
            }
            return Some(i);
        }
        i += 1;
    }
    None
}

/// How far the next occurrence of `c` is from the start of `s`.
///
/// The character at the start is passed over even if it is `c`. The result is
/// 0 where `c` does not occur again.
pub fn jump_next_char(s: &[char], c: char) -> (r: i32)
    requires
        s@.len() <= i32::MAX,
    ensures
        r == jump_distance(s@, c),
        r == 0 ==> no_next_occurrence(s@, c),
        r != 0 ==> is_next_occurrence(s@, c, r as int),
{
    match find_next_char(s, c) {
        Some(i) => i as i32,
        None => 0,
    }
}

} // verus!
