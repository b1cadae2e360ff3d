//! The analysis side's book of the windows it serves: which windows there
//! are, which follow the live refresh, and who is told of a refresh.
//!
//! A window registers with an id and says whether it follows the live
//! refresh (an overlay does, the main window does not). An automatic refresh
//! is told to the following windows only; a manual one to every window; and
//! a window that asks for the combats list alone gets it alone, without
//! being moved to the newest combat. The sending itself is the caller's.
use vstd::prelude::*;

verus! {

/// A window that takes analysis results.
#[derive(Debug, Clone, Copy, PartialEq, Eq, Structural)]
pub struct Handler {
    pub id: u32,
    /// Whether it follows the live refresh.
    pub auto_refresh: bool,
}

/// The position of the first window with `id`.
pub open spec fn handler_index(s: Seq<Handler>, id: u32) -> Option<int>
    decreases s.len(),
{
    if s.len() == 0 {
        None
    } else if s[0].id == id {
        Some(0)
    } else {
        match handler_index(s.drop_first(), id) {
            Some(i) => Some(i + 1),
            None => None,
        }
    }
}

/// `handler_index` is the first position holding `id`, and none when no
/// window has it.
pub proof fn lemma_handler_index(s: Seq<Handler>, id: u32)
    ensures
        handler_index(s, id) matches Some(i) ==> 0 <= i < s.len() && s[i].id == id && forall|k: int|
            0 <= k < i ==> #[trigger] s[k].id != id,
        handler_index(s, id) is None ==> forall|k: int| 0 <= k < s.len() ==> #[trigger] s[k].id != id,
    decreases s.len(),
{
    if s.len() > 0 && s[0].id != id {
        let rest = s.drop_first();
        lemma_handler_index(rest, id);
        assert forall|k: int| 0 < k < s.len() implies #[trigger] s[k] == rest[k - 1] by {}
    }
}

/// The ids of the windows, in the order they registered.
pub open spec fn all_ids(s: Seq<Handler>) -> Seq<u32> {
    s.map_values(|h: Handler| h.id)
}

/// The ids of the windows that follow the live refresh, in order.
pub open spec fn following_ids(s: Seq<Handler>) -> Seq<u32>
    decreases s.len(),
{
    if s.len() == 0 {
        seq![]
    } else if s.last().auto_refresh {
        following_ids(s.drop_last()).push(s.last().id)
    } else {
        following_ids(s.drop_last())
    }
}

/// Whether any window follows the live refresh, so that it has to run.
pub open spec fn any_following(s: Seq<Handler>) -> bool {
    exists|k: int| 0 <= k < s.len() && (#[trigger] s[k]).auto_refresh
}

/// What asked for a refresh.
#[derive(Debug, Clone, Copy, PartialEq, Eq, Structural)]
pub enum RefreshRequest {
    /// The live refresh.
    Auto,
    /// A user, for every window.
    Manual,
    /// The window with this id, for the combats list alone.
    ListFor(u32),
}

/// Who is told of a refresh, and whether it is the combats list alone (which
/// leaves the window on the combat it shows) rather than the list with the
/// newest combat to switch to.
pub struct Announcement {
    pub to: Vec<u32>,
    pub list_only: bool,
}

/// The windows served.
pub struct Handlers {
    pub list: Vec<Handler>,
}

impl Handlers {
    /// The book with its first window.
    pub fn new(first: Handler) -> (r: Handlers)
        ensures
            r.list@ == seq![first],
    {
        let mut list: Vec<Handler> = Vec::new();
        list.push(first);
        Handlers { list }
    }

    /// Registers a window.
    pub fn add(&mut self, h: Handler)
        ensures
            final(self).list@ == old(self).list@.push(h),
    {
        self.list.push(h);
    }

    /// Where the first window with `id` is.
    pub fn position(&self, id: u32) -> (r: Option<usize>)
        ensures
            match r {
                Some(i) => handler_index(self.list@, id) == Some(i as int),
                None => handler_index(self.list@, id) is None,
            },
    {
        proof {
            lemma_handler_index(self.list@, id);
        }
        let mut i: usize = 0;
        while i < self.list.len()
            invariant
                i <= self.list@.len(),
                forall|k: int| 0 <= k < i ==> #[trigger] self.list@[k].id != id,
                handler_index(self.list@, id) matches Some(j) ==> 0 <= j < self.list@.len() && self.list@[j].id
                    == id && forall|k: int| 0 <= k < j ==> #[trigger] self.list@[k].id != id,
                handler_index(self.list@, id) is None ==> forall|k: int|
                    0 <= k < self.list@.len() ==> #[trigger] self.list@[k].id != id,
            decreases self.list.len() - i,
        {
            if self.list[i].id == id {
                proof {
                    if let Some(j) = handler_index(self.list@, id) {
                        if j > i {
                            assert(self.list@[i as int].id != id);
                        }
                    }
                }
                return Some(i);
            }
            i += 1;
        }
        None
    }

    /// Takes the first window with `id` off the book. `None` when there is no
    /// such window; else whether no window is left, in which case the
    /// analysis side stops.
    pub fn remove(&mut self, id: u32) -> (r: Option<bool>)
        ensures
            match handler_index(old(self).list@, id) {
                None => r is None && final(self).list@ == old(self).list@,
                Some(i) => final(self).list@ == old(self).list@.remove(i) && r == Some(
                    final(self).list@.len() == 0,
                ),
            },
    {
        match self.position(id) {
            None => None,
            Some(i) => {
                proof {
                    lemma_handler_index(self.list@, id);
                }
                self.list.remove(i);
                Some(self.list.len() == 0)
            },
        }
    }

    /// Has the first window with `id` follow the live refresh or not.
    pub fn set_auto_refresh(&mut self, id: u32, enable: bool)
        ensures
            match handler_index(old(self).list@, id) {
                None => final(self).list@ == old(self).list@,
                Some(i) => final(self).list@ == old(self).list@.update(i, Handler { id, auto_refresh: enable }),
            },
    {
        if let Some(i) = self.position(id) {
            proof {
                lemma_handler_index(self.list@, id);
            }
            self.list.set(i, Handler { id, auto_refresh: enable });
        }
    }

    /// Whether the live refresh has to run.
    pub fn auto_refresh_enabled(&self) -> (r: bool)
        ensures
            r == any_following(self.list@),
    {
        let mut i: usize = 0;
        while i < self.list.len()
            invariant
                i <= self.list@.len(),
                forall|k: int| 0 <= k < i ==> !(#[trigger] self.list@[k]).auto_refresh,
            decreases self.list.len() - i,
        {
            if self.list[i].auto_refresh {
                assert(self.list@[i as int].auto_refresh);
                return true;
            }
            i += 1;
        }
        false
    }

    /// Who is told of a refresh asked for by `request`: the following
    /// windows for the live refresh, every window for a manual one, and for a
    /// list asked for by one window that window alone (when it is still
    /// there), told the list only.
    pub fn announcement(&self, request: RefreshRequest) -> (r: Announcement)
        ensures
            r.list_only == (request is ListFor),
            r.to@ == match request {
                RefreshRequest::Auto => following_ids(self.list@),
                RefreshRequest::Manual => all_ids(self.list@),
                RefreshRequest::ListFor(id) => match handler_index(self.list@, id) {
                    Some(_) => seq![id],
                    None => seq![],
                },
            },
    {
        let mut to: Vec<u32> = Vec::new();
        match request {
            RefreshRequest::ListFor(id) => {
                if self.position(id).is_some() {
                    to.push(id);
                }
                assert(to@ =~= match handler_index(self.list@, id) {
                    Some(_) => seq![id],
                    None => Seq::<u32>::empty(),
                });
                Announcement { to, list_only: true }
            },
            _ => {
                let only_following = request == RefreshRequest::Auto;
                for i in 0..self.list.len()
                    invariant
                        only_following == (request == RefreshRequest::Auto),
                        only_following ==> to@ == following_ids(self.list@.take(i as int)),
                        !only_following ==> to@ == all_ids(self.list@.take(i as int)),
                {
                    let h = self.list[i];
                    proof {
                        assert(self.list@.take(i + 1).drop_last() =~= self.list@.take(i as int));
                        assert(self.list@.take(i + 1).last() == h);
                    }
                    if !only_following || h.auto_refresh {
                        to.push(h.id);
                    }
                    assert(!only_following ==> to@ =~= all_ids(self.list@.take(i + 1)));
                }
                assert(self.list@.take(self.list@.len() as int) =~= self.list@);
                Announcement { to, list_only: false }
            },
        }
    }
}

/// The live refresh is told to every window that follows it, and to no
/// other.
pub proof fn lemma_live_refresh_reaches_the_following(s: Seq<Handler>)
    ensures
        forall|k: int|
            0 <= k < following_ids(s).len() ==> exists|j: int|
                0 <= j < s.len() && (#[trigger] s[j]).auto_refresh && s[j].id == #[trigger] following_ids(s)[k],
        forall|j: int| 0 <= j < s.len() && (#[trigger] s[j]).auto_refresh ==> following_ids(s).contains(s[j].id),
    decreases s.len(),
{
    if s.len() > 0 {
        let t = s.drop_last();
        lemma_live_refresh_reaches_the_following(t);
        let f = following_ids(s);
        let g = following_ids(t);
        assert forall|k: int| 0 <= k < f.len() implies exists|j: int|
            0 <= j < s.len() && (#[trigger] s[j]).auto_refresh && s[j].id == #[trigger] f[k] by {
            if k < g.len() {
                assert(f[k] == g[k]);
                let j = choose|j: int| 0 <= j < t.len() && (#[trigger] t[j]).auto_refresh && t[j].id == g[k];
                assert(s[j] == t[j]);
            } else {
                assert(s[s.len() - 1].auto_refresh && s[s.len() - 1].id == f[k]);
            }
        }
        assert forall|j: int| 0 <= j < s.len() && (#[trigger] s[j]).auto_refresh implies f.contains(s[j].id) by {
            if j < t.len() {
                assert(s[j] == t[j]);
                let k = choose|k: int| 0 <= k < g.len() && g[k] == t[j].id;
                assert(f[k] == g[k]);
            } else {
                assert(f[f.len() - 1] == s[j].id);
            }
        }
    } else {
        assert(following_ids(s) == Seq::<u32>::empty());
    }
}

} // verus!
