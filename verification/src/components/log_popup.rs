//! The log window: the log, newest message first.

use crate::logger::{texts, Logger};
use vstd::prelude::*;

verus! {

/// The messages `logs`, newest first, with a line feed between one and the
/// next.
pub open spec fn popup_text(logs: Seq<Seq<char>>) -> Seq<char>
    decreases logs.len(),
{
    if logs.len() == 0 {
        Seq::empty()
    } else if logs.len() == 1 {
        logs[0]
    } else {
        popup_text(logs.subrange(1, logs.len() as int)) + seq!['\n'] + logs[0]
    }
}

/// The log window.
pub struct LogPopup {}

impl LogPopup {
    pub fn new() -> (r: Self) {
        Self {  }
    }

    /// The text that the window shows for `logger`.
    pub fn draw(&self, logger: &Logger) -> (r: String)
        ensures
            r@ == popup_text(logger@),
    {
        let logs = logger.get_all_logs();
        let ghost all = texts(logs);
        let mut r = String::new();
        let n = logs.len();
        let mut i: usize = n;
        assert(all.subrange(n as int, n as int) =~= Seq::<Seq<char>>::empty());
        while i > 0
            invariant
                i <= n,
                n == logs.len(),
                all == texts(logs),
                r@ == popup_text(all.subrange(i as int, n as int)),
            decreases i,
        {
            i -= 1;
            let ghost rest = all.subrange(i as int, n as int);
            proof {
                assert(rest.subrange(1, rest.len() as int) =~= all.subrange(i + 1, n as int));
                assert(rest[0] == logs[i as int]@);
            }
            if i + 1 < n {
                r.push('\n');
            }
            r.append(logs[i].as_str());
        }
        assert(all.subrange(0, n as int) =~= all);
        r
    }
}

} // verus!
