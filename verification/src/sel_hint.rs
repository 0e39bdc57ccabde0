//! The selection summary shown in the hint line.

use vstd::prelude::*;

verus! {

/// Selection statistics of the hint line (computed each frame, shown while
/// the view hovers the selection box).
pub struct SelHintInfo {
    /// Selected notes (piano roll / arrangement) or events (automation).
    pub count: u64,
    /// Time span, `bar.beat.tick→bar.beat.tick`.
    pub span: String,
}

} // verus!
