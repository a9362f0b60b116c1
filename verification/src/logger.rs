//! The log: messages in the order in which they were written.

use vstd::prelude::*;

verus! {

/// A log that only grows.
pub struct Logger {
    entries: Vec<String>,
}

/// The texts of `entries`.
pub open spec fn texts(entries: Vec<String>) -> Seq<Seq<char>> {
    entries@.map_values(|s: String| s@)
}

impl View for Logger {
    type V = Seq<Seq<char>>;

    /// The messages, oldest first.
    closed spec fn view(&self) -> Seq<Seq<char>> {
        texts(self.entries)
    }
}

impl Logger {
    /// An empty log.
    pub fn new() -> (r: Self)
        ensures
            r@ == Seq::<Seq<char>>::empty(),
    {
        let r = Self { entries: Vec::new() };
        assert(r@ =~= Seq::<Seq<char>>::empty());
        r
    }

    /// Writes a message at the end of the log.
    pub fn log(&mut self, s: &str)
        ensures
            final(self)@ == old(self)@.push(s@),
    {
        self.entries.push(String::from_str(s));
        assert(self@ =~= old(self)@.push(s@));
    }

    /// The messages, oldest first.
    pub fn get_all_logs(&self) -> (r: Vec<String>)
        ensures
            texts(r) == self@,
    {
        let mut r: Vec<String> = Vec::new();
        let mut i: usize = 0;
        while i < self.entries.len()
            invariant
                i <= self.entries.len(),
                r.len() == i,
                forall|j: int| 0 <= j < i ==> (#[trigger] r[j])@ == self.entries[j]@,
            decreases self.entries.len() - i,
        {
            r.push(self.entries[i].clone());
            i += 1;
        }
        assert(texts(r) =~= self@);
        r
    }
}

} // verus!
