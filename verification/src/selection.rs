//! Which rows of a metrics table are picked for its diagrams. A plain click
//! picks a row as a group (the row with what is under it) or, on the row
//! already picked so, clears the pick; a ctrl-click adds a single row to the
//! picked ones or takes it away again.
use vstd::prelude::*;

verus! {

/// What a click tells the diagrams, by row id.
#[derive(Debug, Clone, Copy, PartialEq, Eq, Structural)]
pub enum SelectionEvent {
    /// Nothing is picked any more.
    Clear,
    /// This row is picked as a group, in place of anything picked before.
    Group(u32),
    /// This row alone is picked, in place of anything picked before.
    Single(u32),
    /// This row is picked beside the ones picked before.
    AddSingle(u32),
    /// This row is no longer picked; the others stay.
    Unselect(u32),
}

/// The rows picked.
pub enum SelectionTracker {
    /// Nothing is picked.
    Nothing,
    Group(u32),
    /// Single rows, in the order they were picked; never empty, each row
    /// once. (A set is kept as a list: vstd's hash-set contracts hold only
    /// for hashers it knows to be valid, and a fast custom hasher is not
    /// one of them.)
    Multi(Vec<u32>),
}

/// `after` and `r` are what a ctrl-click on row `id` makes of `before`: the
/// row is added when it is not picked, taken away when it is and others
/// are too, and the pick is cleared when it was the only one; a group pick
/// gives way to the single row.
pub open spec fn single_step(before: SelectionTracker, id: u32, after: SelectionTracker, r: SelectionEvent) -> bool {
    match before {
        SelectionTracker::Multi(v) => if v@.contains(id) {
            if v@.len() > 1 {
                &&& after matches SelectionTracker::Multi(w) && w@.to_set() == v@.to_set().remove(id)
                &&& r == SelectionEvent::Unselect(id)
            } else {
                after is Nothing && r == SelectionEvent::Clear
            }
        } else {
            &&& after matches SelectionTracker::Multi(w) && w@ == v@.push(id)
            &&& r == SelectionEvent::AddSingle(id)
        },
        _ => {
            &&& after matches SelectionTracker::Multi(w) && w@ == seq![id]
            &&& r == SelectionEvent::Single(id)
        },
    }
}

impl SelectionTracker {
    /// A set of single rows holds each row once and is never empty.
    pub open spec fn well_formed(&self) -> bool {
        match self {
            SelectionTracker::Multi(v) => v@.len() > 0 && v@.no_duplicates(),
            _ => true,
        }
    }

    /// The ids of the rows picked.
    pub open spec fn selected(&self) -> Set<u32> {
        match self {
            SelectionTracker::Nothing => Set::empty(),
            SelectionTracker::Group(g) => set![*g],
            SelectionTracker::Multi(v) => v@.to_set(),
        }
    }

    /// Nothing picked.
    pub fn new() -> (r: SelectionTracker)
        ensures
            r is Nothing,
            r.well_formed(),
    {
        SelectionTracker::Nothing
    }

    /// Whether row `id` is picked.
    pub fn is_selected(&self, id: u32) -> (r: bool)
        ensures
            r == self.selected().contains(id),
    {
        match self {
            SelectionTracker::Nothing => false,
            SelectionTracker::Group(g) => *g == id,
            SelectionTracker::Multi(v) => {
                let mut i: usize = 0;
                while i < v.len()
                    invariant
                        i <= v@.len(),
                        self.selected() == v@.to_set(),
                        forall|k: int| 0 <= k < i ==> v@[k] != id,
                    decreases v.len() - i,
                {
                    if v[i] == id {
                        assert(v@[i as int] == id);
                        assert(v@.contains(id));
                        assert(v@.to_set().contains(id));
                        return true;
                    }
                    i += 1;
                }
                false
            },
        }
    }

    /// A plain click on row `id`: it is picked as a group, or, when it
    /// already is, nothing is picked any more.
    pub fn select_group(&mut self, id: u32) -> (r: SelectionEvent)
        ensures
            (*old(self) matches SelectionTracker::Group(g) && g == id) ==> *final(self) is Nothing && r
                == SelectionEvent::Clear,
            !(*old(self) matches SelectionTracker::Group(g) && g == id) ==> (*final(self) matches SelectionTracker::Group(
                g,
            ) && g == id) && r == SelectionEvent::Group(id),
            final(self).well_formed(),
    {
        let same = match self {
            SelectionTracker::Group(g) => *g == id,
            _ => false,
        };
        if same {
            *self = SelectionTracker::Nothing;
            SelectionEvent::Clear
        } else {
            *self = SelectionTracker::Group(id);
            SelectionEvent::Group(id)
        }
    }

    /// A ctrl-click on row `id`, as [`single_step`] says.
    pub fn select_or_unselect_single(&mut self, id: u32) -> (r: SelectionEvent)
        requires
            old(self).well_formed(),
        ensures
            single_step(*old(self), id, *final(self), r),
            final(self).well_formed(),
    {
        let pos: Option<usize> = match self {
            SelectionTracker::Multi(v) => {
                let mut found: Option<usize> = None;
                let mut i: usize = 0;
                while i < v.len() && found.is_none()
                    invariant
                        i <= v@.len(),
                        found matches Some(j) ==> j < v@.len() && v@[j as int] == id,
                        found is None ==> forall|k: int| 0 <= k < i ==> v@[k] != id,
                    decreases v.len() - i,
                {
                    if v[i] == id {
                        found = Some(i);
                    }
                    i += 1;
                }
                found
            },
            _ => None,
        };
        match self {
            SelectionTracker::Multi(v) => {
                match pos {
                    None => {
                        assert(!v@.contains(id));
                        let ghost before = v@;
                        v.push(id);
                        assert(v@.no_duplicates()) by {
                            assert forall|a: int, b: int| 0 <= a < b < v@.len() implies v@[a] != v@[b] by {
                                if b == before.len() {
                                    assert(v@[a] == before[a]);
                                    assert(before.contains(before[a]));
                                }
                            }
                        }
                        SelectionEvent::AddSingle(id)
                    },
                    Some(i) => {
                        if v.len() > 1 {
                            let ghost before = v@;
                            assert(before[i as int] == id);
                            v.remove(i);
                            proof {
                                assert(v@ =~= before.remove(i as int));
                                assert(v@.no_duplicates()) by {
                                    assert forall|a: int, b: int| 0 <= a < b < v@.len() implies v@[a] != v@[b] by {
                                        let a0 = if a < i {
                                            a
                                        } else {
                                            a + 1
                                        };
                                        let b0 = if b < i {
                                            b
                                        } else {
                                            b + 1
                                        };
                                        assert(v@[a] == before[a0] && v@[b] == before[b0]);
                                    }
                                }
                                assert(v@.to_set() =~= before.to_set().remove(id)) by {
                                    assert forall|x: u32| #[trigger] v@.to_set().contains(x) <==> before.to_set().remove(
                                        id,
                                    ).contains(x) by {
                                        if v@.contains(x) {
                                            let k = choose|k: int| 0 <= k < v@.len() && v@[k] == x;
                                            let k0 = if k < i {
                                                k
                                            } else {
                                                k + 1
                                            };
                                            assert(before[k0] == x);
                                            assert(k0 != i);
                                        }
                                        if before.contains(x) && x != id {
                                            let k = choose|k: int| 0 <= k < before.len() && before[k] == x;
                                            assert(k != i);
                                            if k < i {
                                                assert(v@[k] == x);
                                            } else {
                                                assert(v@[k - 1] == x);
                                            }
                                        }
                                    }
                                }
                            }
                            SelectionEvent::Unselect(id)
                        } else {
                            assert(v@.contains(id));
                            *self = SelectionTracker::Nothing;
                            SelectionEvent::Clear
                        }
                    },
                }
            },
            _ => {
                let mut v: Vec<u32> = Vec::new();
                v.push(id);
                *self = SelectionTracker::Multi(v);
                SelectionEvent::Single(id)
            },
        }
    }
}

/// Ctrl-clicking a row twice gives back the rows picked before, when no
/// group was picked (a group pick gives way to the first single row, and the
/// second click then clears).
pub proof fn lemma_ctrl_click_twice_undoes(
    t0: SelectionTracker,
    t1: SelectionTracker,
    t2: SelectionTracker,
    id: u32,
    e1: SelectionEvent,
    e2: SelectionEvent,
)
    requires
        t0.well_formed(),
        t1.well_formed(),
        !(t0 is Group),
        single_step(t0, id, t1, e1),
        single_step(t1, id, t2, e2),
    ensures
        t2.selected() == t0.selected(),
{
    match t0 {
        SelectionTracker::Multi(v) => {
            if v@.contains(id) {
                if v@.len() > 1 {
                    let w = t1->Multi_0;
                    assert(!w@.contains(id)) by {
                        if w@.contains(id) {
                            assert(w@.to_set().contains(id));
                        }
                    }
                    let u = t2->Multi_0;
                    assert(u@.to_set() =~= v@.to_set()) by {
                        assert forall|x: u32| #[trigger] u@.to_set().contains(x) <==> v@.to_set().contains(x) by {
                            if x != id {
                                assert(u@.contains(x) <==> w@.contains(x)) by {
                                    if w@.contains(x) {
                                        let k = choose|k: int| 0 <= k < w@.len() && w@[k] == x;
                                        assert(u@[k] == x);
                                    }
                                    if u@.contains(x) {
                                        let k = choose|k: int| 0 <= k < u@.len() && u@[k] == x;
                                        assert(k < w@.len());
                                        assert(w@[k] == x);
                                    }
                                }
                                assert(w@.to_set().contains(x) == w@.contains(x));
                            } else {
                                assert(u@[w@.len() as int] == id);
                            }
                        }
                    }
                } else {
                    assert(v@.len() == 1);
                    assert(v@[0] == id);
                    let u = t2->Multi_0;
                    assert(u@.to_set() =~= v@.to_set()) by {
                        assert forall|x: u32| #[trigger] u@.to_set().contains(x) <==> v@.to_set().contains(x) by {
                            if u@.contains(x) {
                                assert(u@[0] == x);
                            }
                            if v@.contains(x) {
                                assert(v@[0] == x);
                                assert(u@[0] == x);
                            }
                        }
                    }
                }
            } else {
                let w = t1->Multi_0;
                assert(w@.contains(id)) by {
                    assert(w@[v@.len() as int] == id);
                }
                assert(w@.len() > 1);
                let u = t2->Multi_0;
                assert(u@.to_set() =~= v@.to_set()) by {
                    assert forall|x: u32| #[trigger] u@.to_set().contains(x) <==> v@.to_set().contains(x) by {
                        if v@.contains(x) {
                            let k = choose|k: int| 0 <= k < v@.len() && v@[k] == x;
                            assert(w@[k] == x);
                            assert(w@.to_set().contains(x));
                        }
                        if w@.contains(x) && x != id {
                            let k = choose|k: int| 0 <= k < w@.len() && w@[k] == x;
                            assert(k < v@.len());
                            assert(v@[k] == x);
                        }
                    }
                }
            }
        },
        _ => {
            let w = t1->Multi_0;
            assert(w@.contains(id)) by {
                assert(w@[0] == id);
            }
            assert(t0.selected() =~= Set::<u32>::empty());
        },
    }
}

} // verus!
