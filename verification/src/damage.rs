//! Counting hits: how many landed on shields and on hulls, and how many of
//! them were critical, flanking or missed. (The damage they did is a decimal
//! figure and is summed by the caller.)
use vstd::prelude::*;
use crate::record::{Record, RecordFieldsView, ValueKind, kind_is_damage, has_flag};
use crate::combat::{other_party, other_party_name};
use crate::text::str_contains;

verus! {

/// What a hit landed on.
#[derive(Debug, Clone, Copy, PartialEq, Eq, Structural)]
pub enum HitKind {
    /// Shield damage.
    Shield,
    /// A shield drain.
    ShieldDrain,
    /// Hull damage.
    Hull,
}

/// A hit as it is counted: what it landed on and its flags.
#[derive(Debug, Clone, Copy, PartialEq, Eq, Structural)]
pub struct CountedHit {
    pub kind: HitKind,
    pub immune: bool,
    pub critical: bool,
    pub flank: bool,
    pub miss: bool,
}

/// The hit a damage record is, none for a heal.
pub open spec fn hit_of_record(kind: ValueKind, flags: Seq<char>) -> Option<CountedHit> {
    if !kind_is_damage(kind) {
        None
    } else {
        Some(
            CountedHit {
                kind: match kind {
                    ValueKind::ShieldDrain => HitKind::ShieldDrain,
                    ValueKind::Shield | ValueKind::ShieldUnprevented => HitKind::Shield,
                    _ => HitKind::Hull,
                },
                immune: has_flag(flags, "Immune"@),
                critical: has_flag(flags, "Critical"@),
                flank: has_flag(flags, "Flank"@),
                miss: has_flag(flags, "Miss"@),
            },
        )
    }
}

/// [`hit_of_record`] of `record`.
pub fn hit_of(record: &Record) -> (r: Option<CountedHit>)
    ensures
        r == hit_of_record(record.value.kind, record.fields.value_flags@),
{
    if !record.value.is_damage() {
        return None;
    }
    let kind = match record.value.kind {
        ValueKind::ShieldDrain => HitKind::ShieldDrain,
        ValueKind::Shield | ValueKind::ShieldUnprevented => HitKind::Shield,
        _ => HitKind::Hull,
    };
    let flags = record.fields.value_flags.as_str();
    proof {
        reveal_strlit("Immune");
        reveal_strlit("Critical");
        reveal_strlit("Flank");
        reveal_strlit("Miss");
    }
    Some(
        CountedHit {
            kind,
            immune: str_contains(flags, "Immune"),
            critical: str_contains(flags, "Critical"),
            flank: str_contains(flags, "Flank"),
            miss: str_contains(flags, "Miss"),
        },
    )
}

/// How many of the hits `s` meet `p`.
pub open spec fn hits_where(s: Seq<CountedHit>, p: spec_fn(CountedHit) -> bool) -> nat
    decreases s.len(),
{
    if s.len() == 0 {
        0
    } else {
        hits_where(s.drop_last(), p) + if p(s.last()) {
            1nat
        } else {
            0nat
        }
    }
}

/// Hits on shields, drains included, whatever their flags.
pub open spec fn on_shield(h: CountedHit) -> bool {
    h.kind != HitKind::Hull
}

/// Hits on hulls, whatever their flags.
pub open spec fn on_hull(h: CountedHit) -> bool {
    h.kind == HitKind::Hull
}

/// Critical hull hits on a target that was not immune. Shield criticals are
/// not counted, so that the critical share stays a share of hull hits.
pub open spec fn critical_on_hull(h: CountedHit) -> bool {
    !h.immune && h.kind == HitKind::Hull && h.critical
}

/// Flanking hits on a target that was not immune.
pub open spec fn flanking(h: CountedHit) -> bool {
    !h.immune && h.flank
}

/// Misses on a target that was not immune.
pub open spec fn missed(h: CountedHit) -> bool {
    !h.immune && h.miss
}

/// What a batch of hits adds to a damage group's counts.
pub struct DamageMetricsDelta {
    pub shield_hits: u64,
    pub hull_hits: u64,
    pub all_hits: u64,
    pub misses: u64,
    pub crits: u64,
    pub flanks: u64,
}

proof fn lemma_hits_where_bounded(s: Seq<CountedHit>, p: spec_fn(CountedHit) -> bool)
    ensures
        hits_where(s, p) <= s.len(),
    decreases s.len(),
{
    if s.len() > 0 {
        lemma_hits_where_bounded(s.drop_last(), p);
    }
}

/// Counting by a stricter test never gives more.
proof fn lemma_hits_where_monotone(s: Seq<CountedHit>, p: spec_fn(CountedHit) -> bool, q: spec_fn(CountedHit) -> bool)
    requires
        forall|h: CountedHit| #[trigger] p(h) ==> q(h),
    ensures
        hits_where(s, p) <= hits_where(s, q),
    decreases s.len(),
{
    if s.len() > 0 {
        lemma_hits_where_monotone(s.drop_last(), p, q);
    }
}

proof fn lemma_shield_and_hull(s: Seq<CountedHit>)
    ensures
        hits_where(s, |h: CountedHit| on_shield(h)) + hits_where(s, |h: CountedHit| on_hull(h)) == s.len(),
    decreases s.len(),
{
    if s.len() > 0 {
        lemma_shield_and_hull(s.drop_last());
    }
}

/// A hull critical is a hull hit, and a flank or a miss is a hit: so the
/// criticals never outnumber the hull hits (and hull hits less criticals,
/// the non-critical hull hits, is never negative), nor the flanks or misses
/// the hits; and every hit is on a shield or on a hull.
pub proof fn lemma_counts_within_hits(s: Seq<CountedHit>)
    ensures
        hits_where(s, |h: CountedHit| critical_on_hull(h)) <= hits_where(s, |h: CountedHit| on_hull(h)),
        hits_where(s, |h: CountedHit| flanking(h)) <= s.len(),
        hits_where(s, |h: CountedHit| missed(h)) <= s.len(),
        hits_where(s, |h: CountedHit| on_shield(h)) + hits_where(s, |h: CountedHit| on_hull(h)) == s.len(),
{
    lemma_hits_where_monotone(s, |h: CountedHit| critical_on_hull(h), |h: CountedHit| on_hull(h));
    lemma_hits_where_bounded(s, |h: CountedHit| flanking(h));
    lemma_hits_where_bounded(s, |h: CountedHit| missed(h));
    lemma_shield_and_hull(s);
}

impl DamageMetricsDelta {
    /// The counts of `hits`: every hit counts as a shield or a hull hit; the
    /// criticals, flanks and misses count only where the target was not
    /// immune, and criticals only on hulls.
    pub fn of(hits: &Vec<CountedHit>) -> (r: DamageMetricsDelta)
        requires
            hits@.len() <= u64::MAX,
        ensures
            r.shield_hits == hits_where(hits@, |h: CountedHit| on_shield(h)),
            r.hull_hits == hits_where(hits@, |h: CountedHit| on_hull(h)),
            r.all_hits == hits@.len(),
            r.crits == hits_where(hits@, |h: CountedHit| critical_on_hull(h)),
            r.flanks == hits_where(hits@, |h: CountedHit| flanking(h)),
            r.misses == hits_where(hits@, |h: CountedHit| missed(h)),
    {
        let mut d = DamageMetricsDelta { shield_hits: 0, hull_hits: 0, all_hits: 0, misses: 0, crits: 0, flanks: 0 };
        for i in 0..hits.len()
            invariant
                hits@.len() <= u64::MAX,
                d.shield_hits == hits_where(hits@.take(i as int), |h: CountedHit| on_shield(h)),
                d.hull_hits == hits_where(hits@.take(i as int), |h: CountedHit| on_hull(h)),
                d.crits == hits_where(hits@.take(i as int), |h: CountedHit| critical_on_hull(h)),
                d.flanks == hits_where(hits@.take(i as int), |h: CountedHit| flanking(h)),
                d.misses == hits_where(hits@.take(i as int), |h: CountedHit| missed(h)),
        {
            let ghost next = hits@.take(i + 1);
            proof {
                assert(next.drop_last() =~= hits@.take(i as int));
                assert(next.last() == hits@[i as int]);
                lemma_counts_within_hits(next);
                lemma_hits_where_bounded(next, |h: CountedHit| critical_on_hull(h));
            }
            let h = hits[i];
            match h.kind {
                HitKind::Hull => {
                    d.hull_hits = d.hull_hits + 1;
                },
                _ => {
                    d.shield_hits = d.shield_hits + 1;
                },
            }
            if !h.immune {
                if h.kind == HitKind::Hull && h.critical {
                    d.crits = d.crits + 1;
                }
                if h.flank {
                    d.flanks = d.flanks + 1;
                }
                if h.miss {
                    d.misses = d.misses + 1;
                }
            }
        }
        proof {
            assert(hits@.take(hits@.len() as int) =~= hits@);
            lemma_counts_within_hits(hits@);
        }
        d.all_hits = d.shield_hits + d.hull_hits;
        d
    }
}

/// The hit counts of a damage group, summed over its batches.
pub struct HitCounts {
    pub shield_hits: u64,
    pub hull_hits: u64,
    pub all_hits: u64,
    pub misses: u64,
    pub crits: u64,
    pub flanks: u64,
}

impl HitCounts {
    /// Every hit is a shield or a hull hit, and the criticals, flanks and
    /// misses are among the hull hits or the hits.
    pub open spec fn well_formed(&self) -> bool {
        &&& self.all_hits == self.shield_hits + self.hull_hits
        &&& self.crits <= self.hull_hits
        &&& self.flanks <= self.all_hits
        &&& self.misses <= self.all_hits
    }

    /// No hits yet.
    pub fn new() -> (r: HitCounts)
        ensures
            r.well_formed(),
            r.all_hits == 0 && r.crits == 0 && r.flanks == 0 && r.misses == 0,
    {
        HitCounts { shield_hits: 0, hull_hits: 0, all_hits: 0, misses: 0, crits: 0, flanks: 0 }
    }

    /// Adds the counts of a batch of hits.
    pub fn apply_delta(&mut self, delta: &DamageMetricsDelta)
        requires
            old(self).well_formed(),
            delta.all_hits == delta.shield_hits + delta.hull_hits,
            delta.crits <= delta.hull_hits,
            delta.flanks <= delta.all_hits,
            delta.misses <= delta.all_hits,
            old(self).all_hits + delta.all_hits <= u64::MAX,
        ensures
            final(self).well_formed(),
            final(self).shield_hits == old(self).shield_hits + delta.shield_hits,
            final(self).hull_hits == old(self).hull_hits + delta.hull_hits,
            final(self).all_hits == old(self).all_hits + delta.all_hits,
            final(self).crits == old(self).crits + delta.crits,
            final(self).flanks == old(self).flanks + delta.flanks,
            final(self).misses == old(self).misses + delta.misses,
    {
        self.shield_hits = self.shield_hits + delta.shield_hits;
        self.hull_hits = self.hull_hits + delta.hull_hits;
        self.all_hits = self.all_hits + delta.all_hits;
        self.crits = self.crits + delta.crits;
        self.flanks = self.flanks + delta.flanks;
        self.misses = self.misses + delta.misses;
    }

    /// The hull hits that were not critical.
    pub fn non_crit_hull_hits(&self) -> (r: u64)
        requires
            self.well_formed(),
        ensures
            r == self.hull_hits - self.crits,
    {
        self.hull_hits - self.crits
    }
}

/// Whether a record records a kill: damage with the `Kill` flag.
pub open spec fn kill_record(r: RecordFieldsView, is_damage: bool) -> bool {
    is_damage && has_flag(r.value_flags, "Kill"@)
}

/// The kill a record credits to the player that did it: against the other
/// party of the hit, which is the level its damage is filed under, and
/// whether the target was a player. None when it records no kill, or is
/// damage the doer did directly to itself (which is filed nowhere).
pub open spec fn kill_victim_of(r: RecordFieldsView, is_damage: bool) -> Option<(Seq<char>, bool)> {
    if kill_record(r, is_damage) && !(r.target is Empty && r.indirect_source is Empty) {
        Some((other_party(r), r.target is Player))
    } else {
        None
    }
}

/// Whether `record` records a kill; the player it was done to counts it as
/// a death.
pub fn is_kill(record: &Record) -> (r: bool)
    ensures
        r == kill_record(record.fields@, kind_is_damage(record.value.kind)),
{
    proof {
        reveal_strlit("Kill");
    }
    record.value.is_damage() && str_contains(record.fields.value_flags.as_str(), "Kill")
}

/// [`kill_victim_of`] of `record`.
pub fn kill_of(record: &Record) -> (r: Option<(String, bool)>)
    ensures
        match (r, kill_victim_of(record.fields@, kind_is_damage(record.value.kind))) {
            (None, None) => true,
            (Some((n, p)), Some((m, q))) => n@ == m && p == q,
            _ => false,
        },
{
    if is_kill(record) && !record.is_self_directed() {
        Some((other_party_name(record), record.fields.target.is_player()))
    } else {
        None
    }
}

/// The kills counted against victims that are (`players`) or are not
/// players, over per-victim counts `(is_player, count)`.
pub open spec fn kills_of_kind(s: Seq<(bool, u32)>, players: bool) -> nat
    decreases s.len(),
{
    if s.len() == 0 {
        0
    } else {
        kills_of_kind(s.drop_last(), players) + if s.last().0 == players {
            s.last().1 as nat
        } else {
            0nat
        }
    }
}

proof fn lemma_kills_prefix(s: Seq<(bool, u32)>, i: int, players: bool)
    requires
        0 <= i <= s.len(),
    ensures
        kills_of_kind(s.take(i), players) <= kills_of_kind(s, players),
    decreases s.len() - i,
{
    if i < s.len() {
        lemma_kills_prefix(s, i + 1, players);
        assert(s.take(i + 1).drop_last() =~= s.take(i));
    } else {
        assert(s.take(i) =~= s);
    }
}

/// A player's kill totals from its per-victim counts: the kills of
/// non-players, the kills of players, and all of them. Over the counts of
/// the damage it took, the last is its deaths.
pub fn kill_totals(kills: &Vec<(bool, u32)>) -> (r: (u64, u64, u64))
    requires
        kills_of_kind(kills@, false) + kills_of_kind(kills@, true) <= u64::MAX,
    ensures
        r.0 == kills_of_kind(kills@, false),
        r.1 == kills_of_kind(kills@, true),
        r.2 == r.0 + r.1,
{
    let mut npc: u64 = 0;
    let mut players: u64 = 0;
    for i in 0..kills.len()
        invariant
            kills_of_kind(kills@, false) + kills_of_kind(kills@, true) <= u64::MAX,
            npc == kills_of_kind(kills@.take(i as int), false),
            players == kills_of_kind(kills@.take(i as int), true),
    {
        proof {
            assert(kills@.take(i + 1).drop_last() =~= kills@.take(i as int));
            lemma_kills_prefix(kills@, i + 1, false);
            lemma_kills_prefix(kills@, i + 1, true);
        }
        let (p, n) = kills[i];
        if p {
            players = players + n as u64;
        } else {
            npc = npc + n as u64;
        }
    }
    proof {
        assert(kills@.take(kills@.len() as int) =~= kills@);
    }
    (npc, players, npc + players)
}

} // verus!
