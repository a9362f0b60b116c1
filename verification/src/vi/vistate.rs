//! The modal input engine: it collects keys and recognises commands as soon
//! as a key sequence is complete.

use crate::simple_matcher::{
    classify, compile_from, compile_spec, match_from, match_items, MatchStatus, Pattern,
    PatternInputItem, PatternItem, PatternParseError,
};
use vstd::prelude::*;

verus! {

/// A navigation command.
#[derive(Debug, Clone, Copy, PartialEq, Eq, Structural)]
pub enum ViCommand {
    Up,
    Down,
    Left,
    Right,
    MoveWordForward,
    MoveWordBackward,
    JumpNextChar(char),
    JumpPreviousChar(char),
    FirstLine,
    LastLine,
    FirstColumn,
    LastColumn,
    /// To the next search result.
    Next,
    /// To the previous search result.
    Previous,
}

/// How a command is made from the keys that matched its pattern.
#[derive(Debug, Clone, Copy, PartialEq, Eq, Structural)]
pub enum ViCommandBuilder {
    /// Always this command.
    Fixed(ViCommand),
    /// A jump forward to the last key.
    JumpNextChar,
    /// A jump backward to the last key.
    JumpPreviousChar,
}

/// The command that `builder` makes of the keys `keys`.
pub open spec fn build_command(builder: ViCommandBuilder, keys: Seq<char>) -> ViCommand {
    match builder {
        ViCommandBuilder::Fixed(c) => c,
        ViCommandBuilder::JumpNextChar => ViCommand::JumpNextChar(keys.last()),
        ViCommandBuilder::JumpPreviousChar => ViCommand::JumpPreviousChar(keys.last()),
    }
}

impl ViCommandBuilder {
    /// The command for the keys `keys`.
    pub fn build(&self, keys: &[PatternInputItem]) -> (r: ViCommand)
        requires
            !(*self is Fixed) ==> keys@.len() > 0,
        ensures
            r == match *self {
                ViCommandBuilder::Fixed(c) => c,
                ViCommandBuilder::JumpNextChar => ViCommand::JumpNextChar(keys@.last().c),
                ViCommandBuilder::JumpPreviousChar => ViCommand::JumpPreviousChar(keys@.last().c),
            },
    {
        match self {
            ViCommandBuilder::Fixed(c) => *c,
            ViCommandBuilder::JumpNextChar => ViCommand::JumpNextChar(keys[keys.len() - 1].c),
            ViCommandBuilder::JumpPreviousChar => ViCommand::JumpPreviousChar(
                keys[keys.len() - 1].c,
            ),
        }
    }
}

/// One entry of the command table as plain values.
pub struct TableEntry {
    pub pattern: Seq<PatternItem>,
    pub builder: ViCommandBuilder,
}

pub open spec fn entry(pattern: Seq<PatternItem>, builder: ViCommandBuilder) -> TableEntry {
    TableEntry { pattern, builder }
}

pub open spec fn literal_item(c: char) -> PatternItem {
    PatternItem::Literal(c)
}

/// The characters of `keys`, each taken literally.
pub open spec fn literals(keys: Seq<char>) -> Seq<PatternItem> {
    Seq::new(keys.len(), |i: int| literal_item(keys[i]))
}

/// The entry for the key sequence `keys` taken literally.
pub open spec fn literal_entry(keys: Seq<char>, command: ViCommand) -> TableEntry {
    entry(literals(keys), ViCommandBuilder::Fixed(command))
}

/// The entry for the key `key` followed by any one key.
pub open spec fn capture_entry(key: char, builder: ViCommandBuilder) -> TableEntry {
    entry(seq![PatternItem::Literal(key), PatternItem::AnyChar], builder)
}

/// The command table, in the order in which it is searched.
pub open spec fn command_table() -> Seq<TableEntry> {
    seq![
        literal_entry(seq!['h'], ViCommand::Left),
        literal_entry(seq!['j'], ViCommand::Down),
        literal_entry(seq!['k'], ViCommand::Up),
        literal_entry(seq!['l'], ViCommand::Right),
        literal_entry(seq!['w'], ViCommand::MoveWordForward),
        literal_entry(seq!['b'], ViCommand::MoveWordBackward),
        capture_entry('f', ViCommandBuilder::JumpNextChar),
        capture_entry('F', ViCommandBuilder::JumpPreviousChar),
        literal_entry(seq!['g', 'g'], ViCommand::FirstLine),
        literal_entry(seq!['G'], ViCommand::LastLine),
        literal_entry(seq!['0'], ViCommand::FirstColumn),
        literal_entry(seq!['$'], ViCommand::LastColumn),
        literal_entry(seq!['n'], ViCommand::Next),
        literal_entry(seq!['p'], ViCommand::Previous),
    ]
}

/// The first entry at or after `from` that `input` matches in full.
pub open spec fn first_full_match(
    table: Seq<TableEntry>,
    input: Seq<PatternInputItem>,
    from: int,
) -> Option<int>
    decreases table.len() - from,
{
    if from < 0 || from >= table.len() {
        None
    } else if match_items(table[from].pattern, input) is FullMatch {
        Some(from)
    } else {
        first_full_match(table, input, from + 1)
    }
}

/// Whether `input` is a proper beginning of a match of some entry.
pub open spec fn has_partial_match(table: Seq<TableEntry>, input: Seq<PatternInputItem>) -> bool {
    exists|i: int|
        0 <= i < table.len() && #[trigger] match_items(table[i].pattern, input) is PartialMatch
}

/// The command that the keys `keys` give, if they complete one: that of the
/// first entry of the table that they match in full.
pub open spec fn step_command(keys: Seq<char>) -> Option<ViCommand> {
    match first_full_match(command_table(), classify(keys), 0) {
        Some(i) => Some(build_command(command_table()[i].builder, keys)),
        None => None,
    }
}

/// The keys that stay pending after `keys`: all of them while they may still
/// become a command, none once they are one or can no longer become one.
pub open spec fn step_pending(keys: Seq<char>) -> Seq<char> {
    if first_full_match(command_table(), classify(keys), 0) is None && has_partial_match(
        command_table(),
        classify(keys),
    ) {
        keys
    } else {
        Seq::empty()
    }
}

/// A text without a backslash compiles to its characters taken literally.
pub proof fn lemma_compile_literals(s: Seq<char>, i: int, acc: Seq<PatternItem>)
    requires
        0 <= i <= s.len(),
        forall|j: int| 0 <= j < s.len() ==> s[j] != '\\',
    ensures
        compile_from(s, i, acc) == Ok::<Seq<PatternItem>, PatternParseError>(
            acc + literals(s.subrange(i, s.len() as int)),
        ),
    decreases s.len() - i,
{
    let rest = literals(s.subrange(i, s.len() as int));
    if i == s.len() {
        assert(acc + rest =~= acc);
    } else {
        lemma_compile_literals(s, i + 1, acc.push(PatternItem::Literal(s[i])));
        let rest1 = literals(s.subrange(i + 1, s.len() as int));
        let lhs = acc.push(PatternItem::Literal(s[i])) + rest1;
        let rhs = acc + rest;
        assert(lhs.len() == rhs.len());
        assert forall|k: int| 0 <= k < lhs.len() implies lhs[k] == rhs[k] by {
            if k > acc.len() {
                assert(rest1[k - acc.len() - 1] == literal_item(s[k - acc.len() + i]));
                assert(rest[k - acc.len()] == literal_item(s[k - acc.len() + i]));
            } else if k == acc.len() {
                assert(rest[0] == literal_item(s[i]));
            }
        }
        assert(lhs =~= rhs);
    }
}

/// A key followed by the escape for any character compiles to that key and
/// `AnyChar`.
pub proof fn lemma_compile_capture(key: char)
    requires
        key != '\\',
    ensures
        compile_spec(seq![key, '\\', 'c']) == Ok::<Seq<PatternItem>, PatternParseError>(
            seq![PatternItem::Literal(key), PatternItem::AnyChar],
        ),
{
    let s = seq![key, '\\', 'c'];
    let a0 = Seq::<PatternItem>::empty();
    let a1 = a0.push(PatternItem::Literal(key));
    let a2 = a1.push(PatternItem::AnyChar);
    assert(compile_from(s, 3, a2) == Ok::<Seq<PatternItem>, PatternParseError>(a2));
    assert(compile_from(s, 1, a1) == compile_from(s, 3, a2));
    assert(compile_from(s, 0, a0) == compile_from(s, 1, a1));
    assert(a2 =~= seq![PatternItem::Literal(key), PatternItem::AnyChar]);
}

/// The command table as plain values.
pub open spec fn table_view(patterns: Vec<(Pattern, ViCommandBuilder)>) -> Seq<TableEntry> {
    Seq::new(patterns.len() as nat, |i: int| entry(patterns[i].0@, patterns[i].1))
}

/// Compiles the key sequence `keys`, which holds no backslash, and adds it
/// to the table with its command.
fn add_literal(
    table: &mut Vec<(Pattern, ViCommandBuilder)>,
    keys: &str,
    command: ViCommand,
) -> (r: Result<(), PatternParseError>)
    requires
        forall|j: int| 0 <= j < keys@.len() ==> keys@[j] != '\\',
    ensures
        r is Ok,
        table_view(*final(table)) == table_view(*old(table)).push(literal_entry(keys@, command)),
{
    proof {
        lemma_compile_literals(keys@, 0, Seq::empty());
        assert(keys@.subrange(0, keys@.len() as int) =~= keys@);
        assert(Seq::<PatternItem>::empty() + literals(keys@) =~= literals(keys@));
    }
    let pattern = Pattern::compile(keys)?;
    table.push((pattern, ViCommandBuilder::Fixed(command)));
    assert(table_view(*table) =~= table_view(*old(table)).push(literal_entry(keys@, command)));
    Ok(())
}

/// Compiles `text`, which is `key` and the escape for any character, and
/// adds it to the table with its builder.
fn add_capture(
    table: &mut Vec<(Pattern, ViCommandBuilder)>,
    text: &str,
    key: char,
    builder: ViCommandBuilder,
) -> (r: Result<(), PatternParseError>)
    requires
        key != '\\',
        text@ == seq![key, '\\', 'c'],
    ensures
        r is Ok,
        table_view(*final(table)) == table_view(*old(table)).push(capture_entry(key, builder)),
{
    proof {
        lemma_compile_capture(key);
    }
    let pattern = Pattern::compile(text)?;
    table.push((pattern, builder));
    assert(table_view(*table) =~= table_view(*old(table)).push(capture_entry(key, builder)));
    Ok(())
}

/// The state of the input engine: the keys that are pending, and the command
/// table.
pub struct ViState {
    pending: String,
    patterns: Vec<(Pattern, ViCommandBuilder)>,
}

impl View for ViState {
    type V = Seq<char>;

    /// The keys that are pending.
    closed spec fn view(&self) -> Seq<char> {
        self.pending@
    }
}

impl ViState {
    #[verifier::type_invariant]
    spec fn table_is_fixed(self) -> bool {
        table_view(self.patterns) == command_table()
    }

    /// Compiles the command table.
    fn create_patterns() -> (r: Result<Vec<(Pattern, ViCommandBuilder)>, PatternParseError>)
        ensures
            r is Ok,
            table_view(r->Ok_0) == command_table(),
    {
        proof {
            reveal_strlit("h");
            reveal_strlit("j");
            reveal_strlit("k");
            reveal_strlit("l");
            reveal_strlit("w");
            reveal_strlit("b");
            reveal_strlit("f\\c");
            reveal_strlit("F\\c");
            reveal_strlit("gg");
            reveal_strlit("G");
            reveal_strlit("0");
            reveal_strlit("$");
            reveal_strlit("n");
            reveal_strlit("p");
            assert("h"@ =~= seq!['h']);
            assert("j"@ =~= seq!['j']);
            assert("k"@ =~= seq!['k']);
            assert("l"@ =~= seq!['l']);
            assert("w"@ =~= seq!['w']);
            assert("b"@ =~= seq!['b']);
            assert("f\\c"@ =~= seq!['f', '\\', 'c']);
            assert("F\\c"@ =~= seq!['F', '\\', 'c']);
            assert("gg"@ =~= seq!['g', 'g']);
            assert("G"@ =~= seq!['G']);
            assert("0"@ =~= seq!['0']);
            assert("$"@ =~= seq!['$']);
            assert("n"@ =~= seq!['n']);
            assert("p"@ =~= seq!['p']);
        }
        let mut table: Vec<(Pattern, ViCommandBuilder)> = Vec::new();
        assert(table_view(table) =~= Seq::<TableEntry>::empty());
        add_literal(&mut table, "h", ViCommand::Left)?;
        add_literal(&mut table, "j", ViCommand::Down)?;
        add_literal(&mut table, "k", ViCommand::Up)?;
        add_literal(&mut table, "l", ViCommand::Right)?;
        add_literal(&mut table, "w", ViCommand::MoveWordForward)?;
        add_literal(&mut table, "b", ViCommand::MoveWordBackward)?;
        add_capture(&mut table, "f\\c", 'f', ViCommandBuilder::JumpNextChar)?;
        add_capture(&mut table, "F\\c", 'F', ViCommandBuilder::JumpPreviousChar)?;
        add_literal(&mut table, "gg", ViCommand::FirstLine)?;
        add_literal(&mut table, "G", ViCommand::LastLine)?;
        add_literal(&mut table, "0", ViCommand::FirstColumn)?;
        add_literal(&mut table, "$", ViCommand::LastColumn)?;
        add_literal(&mut table, "n", ViCommand::Next)?;
        add_literal(&mut table, "p", ViCommand::Previous)?;
        assert(table_view(table) =~= command_table());
        Ok(table)
    }

    /// An engine with no key pending.
    pub fn new() -> (r: Self)
        ensures
            r@ == Seq::<char>::empty(),
    {
        let patterns = Self::create_patterns().unwrap();
        Self { pending: String::new(), patterns }
    }

    /// Forgets the keys that are pending.
    pub fn reset(&mut self)
        ensures
            final(self)@ == Seq::<char>::empty(),
    {
        proof {
            use_type_invariant(&*self);
        }
        self.pending = String::new();
    }

    /// Takes one key.
    ///
    /// The key joins the pending keys. If they now match an entry of the
    /// table in full, the first such entry gives the command, and no key
    /// stays pending. Else, if they are the beginning of a match of some
    /// entry, they stay pending. Else they are dropped.
    pub fn process(&mut self, c: char) -> (r: Option<ViCommand>)
        ensures
            r == step_command(old(self)@.push(c)),
            final(self)@ == step_pending(old(self)@.push(c)),
    {
        proof {
            use_type_invariant(&*self);
        }
        let ghost keys = self@.push(c);
        let ghost table = command_table();
        let mut pending = String::new();
        core::mem::swap(&mut self.pending, &mut pending);
        pending.push(c);
        let input = PatternInputItem::str_to_item_char_vec(pending.as_str());
        let mut has_partial = false;
        let mut i: usize = 0;
        while i < self.patterns.len()
            invariant
                i <= self.patterns.len(),
                table == command_table(),
                table_view(self.patterns) == table,
                self@ == Seq::<char>::empty(),
                keys == old(self)@.push(c),
                input@ == classify(keys),
                first_full_match(table, input@, 0) == first_full_match(table, input@, i as int),
                has_partial <==> exists|j: int|
                    0 <= j < i && #[trigger] match_items(table[j].pattern, input@) is PartialMatch,
            decreases self.patterns.len() - i,
        {
            assert(table[i as int] == entry(self.patterns[i as int].0@, self.patterns[i as int].1));
            let status = Pattern::match_aux(
                self.patterns[i].0.items().as_slice(),
                input.as_slice(),
            );
            match status {
                MatchStatus::NoMatch => {},
                MatchStatus::PartialMatch => {
                    has_partial = true;
                },
                MatchStatus::FullMatch => {
                    let command = self.patterns[i].1.build(input.as_slice());
                    assert(input@.last().c == keys.last());
                    assert(status == match_items(table[i as int].pattern, input@));
                    assert(first_full_match(table, input@, i as int) == Some(i as int));
                    assert(command == build_command(table[i as int].builder, keys));
                    return Some(command);
                },
            }
            i += 1;
        }
        if has_partial {
            self.pending = pending;
        }
        proof {
            lemma_no_full_match(table, input@, 0);
        }
        None
    }
}

/// Where no entry matches in full, each entry gives another status.
pub proof fn lemma_no_full_match(table: Seq<TableEntry>, input: Seq<PatternInputItem>, from: int)
    requires
        0 <= from,
        first_full_match(table, input, from) is None,
    ensures
        forall|j: int|
            from <= j < table.len() ==> !(#[trigger] match_items(table[j].pattern, input)
                is FullMatch),
    decreases table.len() - from,
{
    if from < table.len() {
        lemma_no_full_match(table, input, from + 1);
    }
}

/// Whether the characters of `input` from `from` on are those of `keys` from
/// `from` on.
pub open spec fn spells(input: Seq<PatternInputItem>, keys: Seq<char>, from: int) -> bool {
    &&& input.len() == keys.len()
    &&& forall|k: int| from <= k < keys.len() ==> (#[trigger] input[k]).c == keys[k]
}

/// A sequence of literal keys is matched in full by exactly that sequence.
pub proof fn lemma_literals_match(keys: Seq<char>, input: Seq<PatternInputItem>, from: int)
    requires
        0 <= from <= keys.len(),
        from <= input.len(),
    ensures
        match_from(literals(keys), input, from, from) is FullMatch <==> spells(
            input,
            keys,
            from,
        ),
    decreases keys.len() - from,
{
    if from < keys.len() && from < input.len() {
        lemma_literals_match(keys, input, from + 1);
        if spells(input, keys, from + 1) && input[from].c == keys[from] {
            assert(spells(input, keys, from));
        }
        if spells(input, keys, from) {
            assert(input[from].c == keys[from]);
            assert(spells(input, keys, from + 1));
        }
    }
}

/// A key and `AnyChar` are matched in full by exactly that key and one more
/// character.
pub proof fn lemma_capture_matches(key: char, input: Seq<PatternInputItem>)
    ensures
        match_items(seq![PatternItem::Literal(key), PatternItem::AnyChar], input) is FullMatch <==> (
        input.len() == 2 && input[0].c == key),
{
    reveal_with_fuel(match_from, 3);
}

/// Whether entry `i` of the command table is matched in full by `input`,
/// said by what `input` holds.
pub open spec fn entry_spelled(i: int, input: Seq<PatternInputItem>) -> bool {
    if i == 0 {
        spells(input, seq!['h'], 0)
    } else if i == 1 {
        spells(input, seq!['j'], 0)
    } else if i == 2 {
        spells(input, seq!['k'], 0)
    } else if i == 3 {
        spells(input, seq!['l'], 0)
    } else if i == 4 {
        spells(input, seq!['w'], 0)
    } else if i == 5 {
        spells(input, seq!['b'], 0)
    } else if i == 6 {
        input.len() == 2 && input[0].c == 'f'
    } else if i == 7 {
        input.len() == 2 && input[0].c == 'F'
    } else if i == 8 {
        spells(input, seq!['g', 'g'], 0)
    } else if i == 9 {
        spells(input, seq!['G'], 0)
    } else if i == 10 {
        spells(input, seq!['0'], 0)
    } else if i == 11 {
        spells(input, seq!['$'], 0)
    } else if i == 12 {
        spells(input, seq!['n'], 0)
    } else {
        spells(input, seq!['p'], 0)
    }
}

/// Each entry of the command table is matched in full by exactly the keys
/// that it stands for.
pub proof fn lemma_entry_spelled(i: int, input: Seq<PatternInputItem>)
    requires
        0 <= i < command_table().len(),
    ensures
        match_items(command_table()[i].pattern, input) is FullMatch <==> entry_spelled(i, input),
{
    lemma_capture_matches('f', input);
    lemma_capture_matches('F', input);
    lemma_literals_match(seq!['h'], input, 0);
    lemma_literals_match(seq!['j'], input, 0);
    lemma_literals_match(seq!['k'], input, 0);
    lemma_literals_match(seq!['l'], input, 0);
    lemma_literals_match(seq!['w'], input, 0);
    lemma_literals_match(seq!['b'], input, 0);
    lemma_literals_match(seq!['g', 'g'], input, 0);
    lemma_literals_match(seq!['G'], input, 0);
    lemma_literals_match(seq!['0'], input, 0);
    lemma_literals_match(seq!['$'], input, 0);
    lemma_literals_match(seq!['n'], input, 0);
    lemma_literals_match(seq!['p'], input, 0);
}

/// No key sequence is matched in full by two entries of the command table:
/// the order of the table decides nothing.
pub proof fn lemma_table_unambiguous(input: Seq<PatternInputItem>, i: int, j: int)
    requires
        0 <= i < j < command_table().len(),
        match_items(command_table()[i].pattern, input) is FullMatch,
    ensures
        !(match_items(command_table()[j].pattern, input) is FullMatch),
{
    lemma_entry_spelled(i, input);
    lemma_entry_spelled(j, input);
    if entry_spelled(j, input) {
        assert(input.len() > 0);
        let c = input[0].c;
        assert(seq!['h'][0] == 'h' && seq!['j'][0] == 'j' && seq!['k'][0] == 'k' && seq!['l'][0]
            == 'l' && seq!['w'][0] == 'w' && seq!['b'][0] == 'b' && seq!['g', 'g'][0] == 'g'
            && seq!['G'][0] == 'G' && seq!['0'][0] == '0' && seq!['$'][0] == '$' && seq!['n'][0]
            == 'n' && seq!['p'][0] == 'p');
    }
}

} // verus!
