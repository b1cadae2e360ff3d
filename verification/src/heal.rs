//! Healing pools: every heal tick a player's pool takes is kept in two
//! orders, person over ability and ability over person, so that a heal tab
//! can switch between them without reading the log again. Both orders hold
//! the same ticks; only the nesting differs.
//!
//! A tick's amount is a decimal magnitude kept by the caller; a pool refers
//! to it by its position in the caller's list.
use vstd::prelude::*;
use crate::combat::{Segment, path_view, reverse_path};
use crate::record::{Record, ValueKind, has_flag};
use crate::text::str_contains;

verus! {

/// Whether a heal went to shields or to hull.
#[derive(Debug, Clone, Copy, PartialEq, Eq, Structural)]
pub enum SpecificHealTick {
    Shield,
    Hull,
}

/// Which nesting a heal tab shows.
#[derive(Debug, Clone, Copy, PartialEq, Eq, Structural)]
pub enum HealGrouping {
    ByPerson,
    ByAbility,
}

/// One tick in one order of a pool: the path it sits under (read from the
/// last segment, the top level, to the first), what it healed, whether it was
/// a critical, and where its amount is in the caller's list.
pub struct PooledTick {
    pub path: Vec<Segment>,
    pub specific: SpecificHealTick,
    pub critical: bool,
    pub amount: usize,
}

/// One healing pool of a player, in both orders.
pub struct HealPool {
    pub name: String,
    pub by_person: Vec<PooledTick>,
    pub by_ability: Vec<PooledTick>,
}

/// The same tick in both orders: same kind, critical and amount, the path
/// read the other way round.
pub open spec fn same_tick(a: PooledTick, b: PooledTick) -> bool {
    &&& a.specific == b.specific
    &&& a.critical == b.critical
    &&& a.amount == b.amount
    &&& path_view(b.path@) == path_view(a.path@).reverse()
}

impl HealPool {
    /// The pool's invariant: the two orders hold the same ticks, one for one.
    pub open spec fn well_formed(&self) -> bool {
        &&& self.by_person@.len() == self.by_ability@.len()
        &&& forall|i: int| 0 <= i < self.by_person@.len() ==> same_tick(#[trigger] self.by_person@[i], self.by_ability@[i])
    }

    /// An empty pool of the player called `name`.
    pub fn new(name: String) -> (r: HealPool)
        ensures
            r.well_formed(),
            r.name@ == name@,
            r.by_person@.len() == 0,
    {
        HealPool { name, by_person: Vec::new(), by_ability: Vec::new() }
    }

    /// Takes a tick: under `by_person` in the person order and under the
    /// same path read backwards in the other, so that the two orders keep
    /// holding the same ticks, each the new one once more.
    pub fn add(&mut self, by_person: Vec<Segment>, specific: SpecificHealTick, critical: bool, amount: usize)
        requires
            old(self).well_formed(),
        ensures
            final(self).well_formed(),
            final(self).name == old(self).name,
            final(self).by_person@.len() == old(self).by_person@.len() + 1,
            forall|i: int| 0 <= i < old(self).by_person@.len() ==> final(self).by_person@[i] == old(self).by_person@[i]
                && final(self).by_ability@[i] == old(self).by_ability@[i],
            ({
                let t = final(self).by_person@.last();
                let u = final(self).by_ability@.last();
                &&& path_view(t.path@) == path_view(by_person@) && t.specific == specific && t.critical == critical
                    && t.amount == amount
                &&& path_view(u.path@) == path_view(by_person@).reverse() && u.specific == specific && u.critical
                    == critical && u.amount == amount
            }),
    {
        let by_ability = reverse_path(&by_person);
        let ghost p = path_view(by_person@);
        let ghost a = path_view(by_ability@);
        self.by_person.push(PooledTick { path: by_person, specific, critical, amount });
        self.by_ability.push(PooledTick { path: by_ability, specific, critical, amount });
        assert forall|i: int| 0 <= i < self.by_person@.len() implies same_tick(#[trigger] self.by_person@[i], self.by_ability@[i]) by {
            if i == self.by_person@.len() - 1 {
                assert(path_view(self.by_person@[i].path@) == p);
                assert(path_view(self.by_ability@[i].path@) == a);
            }
        }
    }

    /// The order a heal tab shows for `grouping`.
    pub fn grouped(&self, grouping: HealGrouping) -> (r: &Vec<PooledTick>)
        ensures
            r == match grouping {
                HealGrouping::ByPerson => &self.by_person,
                HealGrouping::ByAbility => &self.by_ability,
            },
    {
        match grouping {
            HealGrouping::ByPerson => &self.by_person,
            HealGrouping::ByAbility => &self.by_ability,
        }
    }
}

/// The tick a heal record is: what it healed and whether it was a critical
/// (its flags carry `Critical`); none for damage.
pub open spec fn heal_tick_of_record(kind: ValueKind, flags: Seq<char>) -> Option<(SpecificHealTick, bool)> {
    match kind {
        ValueKind::HealShield => Some((SpecificHealTick::Shield, has_flag(flags, "Critical"@))),
        ValueKind::HealHull => Some((SpecificHealTick::Hull, has_flag(flags, "Critical"@))),
        _ => None,
    }
}

/// [`heal_tick_of_record`] of `record`.
pub fn heal_tick_of(record: &Record) -> (r: Option<(SpecificHealTick, bool)>)
    ensures
        r == heal_tick_of_record(record.value.kind, record.fields.value_flags@),
{
    proof {
        reveal_strlit("Critical");
    }
    let critical = str_contains(record.fields.value_flags.as_str(), "Critical");
    match record.value.kind {
        ValueKind::HealShield => Some((SpecificHealTick::Shield, critical)),
        ValueKind::HealHull => Some((SpecificHealTick::Hull, critical)),
        _ => None,
    }
}

/// How many of the ticks healed shields.
pub open spec fn shield_ticks(s: Seq<PooledTick>) -> nat
    decreases s.len(),
{
    if s.len() == 0 {
        0
    } else {
        shield_ticks(s.drop_last()) + if s.last().specific == SpecificHealTick::Shield {
            1nat
        } else {
            0nat
        }
    }
}

/// How many of the ticks healed hull.
pub open spec fn hull_ticks(s: Seq<PooledTick>) -> nat
    decreases s.len(),
{
    if s.len() == 0 {
        0
    } else {
        hull_ticks(s.drop_last()) + if s.last().specific == SpecificHealTick::Hull {
            1nat
        } else {
            0nat
        }
    }
}

/// How many of the ticks were criticals.
pub open spec fn critical_ticks(s: Seq<PooledTick>) -> nat
    decreases s.len(),
{
    if s.len() == 0 {
        0
    } else {
        critical_ticks(s.drop_last()) + if s.last().critical {
            1nat
        } else {
            0nat
        }
    }
}

/// The counts a batch of ticks adds to a heal group: shield ticks, hull
/// ticks, all of them, and criticals. (The amounts they add are summed by the
/// caller.)
pub struct HealMetricsDelta {
    pub shield_ticks: u64,
    pub hull_ticks: u64,
    pub all_ticks: u64,
    pub crits: u64,
}

proof fn lemma_counts_bounded(s: Seq<PooledTick>)
    ensures
        shield_ticks(s) + hull_ticks(s) == s.len(),
        critical_ticks(s) <= s.len(),
    decreases s.len(),
{
    if s.len() > 0 {
        lemma_counts_bounded(s.drop_last());
    }
}

impl HealMetricsDelta {
    /// The counts of `ticks`.
    pub fn of(ticks: &Vec<PooledTick>) -> (r: HealMetricsDelta)
        requires
            ticks@.len() <= u64::MAX,
        ensures
            r.shield_ticks == shield_ticks(ticks@),
            r.hull_ticks == hull_ticks(ticks@),
            r.all_ticks == ticks@.len(),
            r.crits == critical_ticks(ticks@),
    {
        let mut d = HealMetricsDelta { shield_ticks: 0, hull_ticks: 0, all_ticks: 0, crits: 0 };
        for i in 0..ticks.len()
            invariant
                ticks@.len() <= u64::MAX,
                d.shield_ticks == shield_ticks(ticks@.take(i as int)),
                d.hull_ticks == hull_ticks(ticks@.take(i as int)),
                d.crits == critical_ticks(ticks@.take(i as int)),
        {
            proof {
                assert(ticks@.take(i + 1).drop_last() =~= ticks@.take(i as int));
                lemma_counts_bounded(ticks@.take(i + 1));
            }
            match ticks[i].specific {
                SpecificHealTick::Shield => {
                    d.shield_ticks = d.shield_ticks + 1;
                },
                SpecificHealTick::Hull => {
                    d.hull_ticks = d.hull_ticks + 1;
                },
            }
            if ticks[i].critical {
                d.crits = d.crits + 1;
            }
        }
        proof {
            assert(ticks@.take(ticks@.len() as int) =~= ticks@);
            lemma_counts_bounded(ticks@);
        }
        d.all_ticks = d.shield_ticks + d.hull_ticks;
        d
    }
}

proof fn lemma_same_counts(a: Seq<PooledTick>, b: Seq<PooledTick>)
    requires
        a.len() == b.len(),
        forall|i: int| 0 <= i < a.len() ==> same_tick(#[trigger] a[i], b[i]),
    ensures
        shield_ticks(a) == shield_ticks(b),
        hull_ticks(a) == hull_ticks(b),
        critical_ticks(a) == critical_ticks(b),
    decreases a.len(),
{
    if a.len() > 0 {
        assert(same_tick(a[a.len() - 1], b[b.len() - 1]));
        lemma_same_counts(a.drop_last(), b.drop_last());
    }
}

/// The two orders of a pool hold the same ticks, so every count comes out
/// the same whichever order a heal tab shows; and each tick sits under the
/// same path in both, read the other way round.
pub proof fn lemma_orders_agree(pool: HealPool)
    requires
        pool.well_formed(),
    ensures
        shield_ticks(pool.by_person@) == shield_ticks(pool.by_ability@),
        hull_ticks(pool.by_person@) == hull_ticks(pool.by_ability@),
        critical_ticks(pool.by_person@) == critical_ticks(pool.by_ability@),
        pool.by_person@.len() == pool.by_ability@.len(),
        forall|i: int| 0 <= i < pool.by_person@.len() ==> path_view((#[trigger] pool.by_ability@[i]).path@)
            == path_view(pool.by_person@[i].path@).reverse(),
{
    lemma_same_counts(pool.by_person@, pool.by_ability@);
}

} // verus!
