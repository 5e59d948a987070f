//! What the progress report shows: a bar for the share of the work that is
//! done, and the elapsed time split into hours, minutes and seconds.

use vstd::prelude::*;
use vstd::string::StringExecFns;

verus! {

/// How many cells the progress bar has between its brackets.
pub const BAR_CELLS: u32 = 50;

/// The cell of the bar at position `i`: filled below half of `progress`.
pub open spec fn bar_cell(progress: u32, i: int) -> char {
    if i < progress / 2 {
        '='
    } else {
        ' '
    }
}

/// The bar for a progress in percent: an opening bracket, fifty cells of which
/// one is filled for every two percent, and a closing bracket.
pub open spec fn bar(progress: u32) -> Seq<char> {
    seq!['['] + Seq::new(BAR_CELLS as nat, |i: int| bar_cell(progress, i)) + seq![']']
}

/// The progress bar for a progress in percent. A progress above 100 fills the bar.
pub fn progress_bar(progress: u32) -> (s: String)
    ensures
        s@ == bar(progress),
{
    proof {
        reveal_strlit("[");
        reveal_strlit("]");
        reveal_strlit("=");
        reveal_strlit(" ");
    }
    let mut progress_bar = String::from_str("[");
    for i in 0..BAR_CELLS
        invariant
            "="@ == seq!['='],
            " "@ == seq![' '],
            progress_bar@ =~= seq!['['] + Seq::new(i as nat, |j: int| bar_cell(progress, j)),
    {
        if i < progress / 2 {
            progress_bar.append("=");
        } else {
            progress_bar.append(" ");
        }
    }
    progress_bar.append("]");
    assert(progress_bar@ =~= bar(progress));
    progress_bar
}

/// A number of seconds as hours, minutes below 60 and seconds below 60.
pub fn hours_minutes_seconds(duration: u64) -> (hms: (u64, u64, u64))
    ensures
        hms.0 == duration / 3600,
        hms.1 == (duration / 60) % 60,
        hms.2 == duration % 60,
        hms.0 * 3600 + hms.1 * 60 + hms.2 == duration,
{
    (duration / 60 / 60, (duration / 60) % 60, duration % 60)
}

} // verus!
