//! Layout arithmetic for the windows that are drawn over the panes.

use vstd::prelude::*;

verus! {

/// The shares, in percent, of the three stripes that centre a window which
/// takes `percent` of the space: the margin before it, the window, and the
/// margin after it.
pub fn centered_percentages(percent: u16) -> (r: [u16; 3])
    requires
        percent <= 100,
    ensures
        r[0] == (100 - percent) / 2,
        r[1] == percent,
        r[2] == (100 - percent) / 2,
{
    [(100 - percent) / 2, percent, (100 - percent) / 2]
}

} // verus!
