//! Time frames: the window filter applied during view materialisation.
//!
//! A time frame selects which applied change-log entries participate in a
//! view: entries whose timestamp falls before the frame's cutoff are skipped
//! as if not yet applied, but remain in the log.

use vstd::prelude::*;

verus! {

/// Seconds in one hour.
pub const HOUR_SECONDS: u64 = 3600;

/// Seconds in one day.
pub const DAY_SECONDS: u64 = 86400;

/// Seconds in one week.
pub const WEEK_SECONDS: u64 = 604800;

/// The three time windows selectable through the UI.
#[derive(Clone, Copy, PartialEq, Eq, Structural, Debug)]
pub enum TimeFrame {
    LastHour,
    LastDay,
    LastWeek,
}

/// Width of a frame's window, in seconds.
pub open spec fn frame_duration(tf: TimeFrame) -> u64 {
    match tf {
        TimeFrame::LastHour => HOUR_SECONDS,
        TimeFrame::LastDay => DAY_SECONDS,
        TimeFrame::LastWeek => WEEK_SECONDS,
    }
}

/// Earliest timestamp still inside the window ending at `now`
/// (saturating at zero).
pub open spec fn spec_cutoff(tf: TimeFrame, now: u64) -> u64 {
    if now >= frame_duration(tf) {
        (now - frame_duration(tf)) as u64
    } else {
        0
    }
}

/// Executable cutoff computation.
pub fn cutoff(tf: TimeFrame, now: u64) -> (c: u64)
    ensures
        c == spec_cutoff(tf, now),
{
    let d: u64 = match tf {
        TimeFrame::LastHour => HOUR_SECONDS,
        TimeFrame::LastDay => DAY_SECONDS,
        TimeFrame::LastWeek => WEEK_SECONDS,
    };
    if now >= d {
        now - d
    } else {
        0
    }
}

/// `wide` admits at least every entry that `narrow` admits: its window is
/// at least as long, so its cutoff is at least as early.
pub open spec fn widens(narrow: TimeFrame, wide: TimeFrame) -> bool {
    frame_duration(narrow) <= frame_duration(wide)
}

/// Widening the frame only lowers the cutoff.
pub proof fn lemma_widening_lowers_cutoff(narrow: TimeFrame, wide: TimeFrame, now: u64)
    requires
        widens(narrow, wide),
    ensures
        spec_cutoff(wide, now) <= spec_cutoff(narrow, now),
{
}

} // verus!
