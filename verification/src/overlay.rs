//! What the in-game overlay shows, and the column toggles it sends back.
use vstd::prelude::*;

verus! {

/// A snapshot of what the overlay shows: the enabled columns' names, a row
/// per player, and every configurable column with its enabled flag (for the
/// overlay's own column menu, whose toggles name columns by position here).
pub struct OverlayData {
    pub columns: Vec<String>,
    pub rows: Vec<OverlayRow>,
    pub all_columns: Vec<(String, bool)>,
}

/// One player's row: the name and a formatted value per column.
pub struct OverlayRow {
    pub name: String,
    pub values: Vec<String>,
}

/// Sent by the overlay back to the program.
pub enum OverlayEvent {
    /// Switch the column at this position on or off.
    ToggleColumn(usize),
}

/// The column flags after `events`, in order: each toggle of a column that
/// exists flips its flag; a toggle of a position past the end does nothing.
pub open spec fn toggled(flags: Seq<bool>, events: Seq<OverlayEvent>) -> Seq<bool>
    decreases events.len(),
{
    if events.len() == 0 {
        flags
    } else {
        let before = toggled(flags, events.drop_last());
        match events.last() {
            OverlayEvent::ToggleColumn(i) => if i < before.len() {
                before.update(i as int, !before[i as int])
            } else {
                before
            },
        }
    }
}

/// Whether any of `events` toggles a column that exists.
pub open spec fn any_applies(len: nat, events: Seq<OverlayEvent>) -> bool {
    exists|k: int| 0 <= k < events.len() && (#[trigger] events[k] matches OverlayEvent::ToggleColumn(i) && i < len)
}

/// Applies the overlay's column toggles to the columns' enabled flags;
/// returns whether any of them changed the configuration.
pub fn apply_events(enabled: &mut Vec<bool>, events: &Vec<OverlayEvent>) -> (changed: bool)
    ensures
        final(enabled)@ == toggled(old(enabled)@, events@),
        changed == any_applies(old(enabled)@.len(), events@),
{
    let ghost start = enabled@;
    let mut changed = false;
    for k in 0..events.len()
        invariant
            enabled@ == toggled(start, events@.take(k as int)),
            enabled@.len() == start.len(),
            changed == any_applies(start.len(), events@.take(k as int)),
    {
        proof {
            assert(events@.take(k + 1).drop_last() =~= events@.take(k as int));
            assert(events@.take(k + 1).last() == events@[k as int]);
        }
        match events[k] {
            OverlayEvent::ToggleColumn(i) => {
                if i < enabled.len() {
                    let flag = enabled[i];
                    enabled.set(i, !flag);
                    changed = true;
                    proof {
                        assert(events@.take(k + 1)[k as int] == events@[k as int]);
                    }
                }
            },
        }
        proof {
            let t = events@.take(k + 1);
            assert forall|m: int| 0 <= m < k implies t[m] == events@.take(k as int)[m] by {}
            if any_applies(start.len(), events@.take(k as int)) {
                let m = choose|m: int| 0 <= m < k && (#[trigger] events@.take(k as int)[m] matches OverlayEvent::ToggleColumn(i) && i < start.len());
                assert(t[m] == events@.take(k as int)[m]);
            }
            if any_applies(start.len(), t) {
                let m = choose|m: int| 0 <= m < k + 1 && (#[trigger] t[m] matches OverlayEvent::ToggleColumn(i) && i < start.len());
                if m < k {
                    assert(events@.take(k as int)[m] == t[m]);
                }
            }
        }
    }
    assert(events@.take(events@.len() as int) =~= events@);
    changed
}

} // verus!
