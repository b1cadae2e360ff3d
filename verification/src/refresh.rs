//! When a followed log is read again: the decisions of the live refresh.
use vstd::prelude::*;

verus! {

/// What the live refresh does when it is asked to run.
#[derive(Debug, Clone, Copy, PartialEq, Eq, Structural)]
pub enum RefreshStep {
    /// Nothing: a refresh is already scheduled, or the time since the last
    /// one is unknown.
    Wait,
    /// Read the log again now.
    RefreshNow,
    /// Read it again after this many milliseconds.
    ScheduleIn(u64),
}

/// The step for a refresh that may already be `scheduled`, `elapsed`
/// milliseconds after the last one (none when the clock could not say), with
/// refreshes `interval` milliseconds apart.
pub open spec fn refresh_step_of(scheduled: bool, elapsed: Option<u64>, interval: u64) -> RefreshStep {
    if scheduled {
        RefreshStep::Wait
    } else {
        match elapsed {
            None => RefreshStep::Wait,
            Some(e) => if e >= interval {
                RefreshStep::RefreshNow
            } else {
                RefreshStep::ScheduleIn((interval - e) as u64)
            },
        }
    }
}

/// [`refresh_step_of`], decided.
pub fn auto_refresh_step(scheduled: bool, elapsed: Option<u64>, interval: u64) -> (r: RefreshStep)
    ensures
        r == refresh_step_of(scheduled, elapsed, interval),
{
    if scheduled {
        return RefreshStep::Wait;
    }
    match elapsed {
        None => RefreshStep::Wait,
        Some(e) => {
            if e >= interval {
                RefreshStep::RefreshNow
            } else {
                RefreshStep::ScheduleIn(interval - e)
            }
        },
    }
}

/// A scheduled refresh never waits past the interval, and never for nothing.
pub proof fn lemma_refresh_comes_within_the_interval(scheduled: bool, elapsed: Option<u64>, interval: u64)
    ensures
        refresh_step_of(scheduled, elapsed, interval) matches RefreshStep::ScheduleIn(d) ==> 0 < d <= interval,
{
}

/// Whether a refresh is left unannounced: an automatic one (`skip_when_unchanged`)
/// after which the log's size is known and the same as at the last announced
/// refresh, so that a view is not rebuilt for nothing. A manual refresh is
/// always announced.
pub fn skip_refresh(skip_when_unchanged: bool, size: Option<u64>, last_size: Option<u64>) -> (r: bool)
    ensures
        r == (skip_when_unchanged && size is Some && size == last_size),
{
    skip_when_unchanged && size.is_some() && size == last_size
}

} // verus!
