//! Combats: splitting the record stream into fights, keeping each fight's
//! times, names and entities, and deciding for every record which player's
//! tree it goes into and under which path.
//!
//! The damage and heal figures themselves (decimal magnitudes summed per
//! tree node) are kept by the caller; this module says where each record
//! belongs.
use vstd::prelude::*;
use crate::text::{views, join, chars_of, extend, extend_str, string_of, str_eq, join_strings, str_contains, owned};
use crate::entity::{Entity, EntityView, entity_name};
use crate::record::{Record, RecordFieldsView, NumberClass, kind_is_damage, value_all_zero, has_flag};
use crate::detection::{Critter, DetectionRules, HullVerdicts, Difficulty, detect, detection, verdicts_fit, opt_string_view};
use crate::naming::{CombatName, combat_name_text, with_difficulty, with_combat_type, append_detected_difficulty, append_detected_combat_type};
use crate::timefmt::{formatted_time, format_time, DATE_LAYOUT, CLOCK_LAYOUT, FILE_CLOCK_LAYOUT};

verus! {

/// One level of a grouping path: an ability (or other value name), or a
/// grouping by a party or a rule.
#[derive(Debug, Clone, PartialEq, Eq)]
pub enum Segment {
    Value(String),
    Group(String),
}

pub enum SegmentView {
    Value(Seq<char>),
    Group(Seq<char>),
}

impl View for Segment {
    type V = SegmentView;

    open spec fn view(&self) -> SegmentView {
        match self {
            Segment::Value(s) => SegmentView::Value(s@),
            Segment::Group(s) => SegmentView::Group(s@),
        }
    }
}

pub open spec fn path_view(p: Seq<Segment>) -> Seq<SegmentView> {
    p.map_values(|s: Segment| s@)
}

/// The three healing pools of a player. They are disjoint: healing somebody
/// else, being healed by somebody else, and healing oneself.
#[derive(Debug, Clone, Copy, PartialEq, Eq, Structural)]
pub enum Pool {
    Ally,
    Received,
    SelfHeal,
}

/// Where a record goes in one player's trees.
pub enum Placement {
    /// Nowhere.
    Skip,
    /// Outgoing damage, under this path (read from the last segment, the top
    /// level, to the first).
    DamageOut(Vec<Segment>),
    /// Incoming damage, under this path.
    DamageIn(Vec<Segment>),
    /// A heal tick in `pool`, kept under both orders: person over ability,
    /// and the same path read the other way round.
    Heal { pool: Pool, by_person: Vec<Segment>, by_ability: Vec<Segment> },
}

/// Which side of a record a player is on.
#[derive(Debug, Clone, Copy, PartialEq, Eq, Structural)]
pub enum Direction {
    /// The player did it.
    Out,
    /// It was done to the player.
    In,
}

/// The players a record is credited to, in order: its source player as the
/// doer; its target player as the receiver; the player behind a non-player
/// source as the receiver; and a player acting on nobody as the receiver.
pub open spec fn recipients(r: RecordFieldsView) -> Seq<(Seq<char>, Direction)> {
    let out = match r.source {
        EntityView::Player { full_name, .. } => seq![(full_name, Direction::Out)],
        _ => seq![],
    };
    let target = match r.target {
        EntityView::Player { full_name, .. } => seq![(full_name, Direction::In)],
        _ => seq![],
    };
    let behind = match (r.indirect_source, r.source) {
        (EntityView::Player { full_name, .. }, EntityView::NonPlayer { .. }) => seq![
            (full_name, Direction::In),
        ],
        _ => seq![],
    };
    let itself = match (r.source, r.indirect_source, r.target) {
        (EntityView::Player { full_name, .. }, EntityView::Empty, EntityView::Empty) => seq![
            (full_name, Direction::In),
        ],
        _ => seq![],
    };
    out + target + behind + itself
}

pub open spec fn recipient_views(v: Seq<(String, Direction)>) -> Seq<(Seq<char>, Direction)> {
    v.map_values(|p: (String, Direction)| (p.0@, p.1))
}

/// The players `record` is credited to.
pub fn record_recipients(record: &Record) -> (r: Vec<(String, Direction)>)
    ensures
        recipient_views(r@) == recipients(record.fields@),
{
    let f = &record.fields;
    let mut r: Vec<(String, Direction)> = Vec::new();
    if let Entity::Player { full_name, .. } = &f.source {
        r.push((full_name.clone(), Direction::Out));
    }
    if let Entity::Player { full_name, .. } = &f.target {
        r.push((full_name.clone(), Direction::In));
    }
    if let (Entity::Player { full_name, .. }, Entity::NonPlayer { .. }) = (
        &f.indirect_source,
        &f.source,
    ) {
        r.push((full_name.clone(), Direction::In));
    }
    if let (Entity::Player { full_name, .. }, Entity::Empty, Entity::Empty) = (
        &f.source,
        &f.indirect_source,
        &f.target,
    ) {
        r.push((full_name.clone(), Direction::In));
    }
    assert(recipient_views(r@) =~= recipients(record.fields@));
    r
}

/// The grouping path of a record before the party level: the ability alone
/// when there is no indirect source or no target; otherwise the ability under
/// the indirect source (or the other way round when `reverse`); and the
/// custom group on top when a custom rule matched.
pub open spec fn grouping_path(r: RecordFieldsView, reverse: bool, custom_group: Option<Seq<char>>) -> Seq<
    SegmentView,
> {
    let base = match (r.indirect_source, r.target) {
        (EntityView::Empty, _) => seq![SegmentView::Value(r.value_name)],
        (_, EntityView::Empty) => seq![SegmentView::Value(r.value_name)],
        (i, _) => match entity_name(i) {
            Some(n) => if reverse {
                seq![SegmentView::Value(n), SegmentView::Group(r.value_name)]
            } else {
                seq![SegmentView::Value(r.value_name), SegmentView::Group(n)]
            },
            None => seq![SegmentView::Value(r.value_name)],
        },
    };
    match custom_group {
        Some(g) => base.push(SegmentView::Group(g)),
        None => base,
    }
}

/// The grouping path of `record`. Paths are at most a few levels deep; they
/// are kept in a plain `Vec`.
pub fn build_grouping_path(record: &Record, reverse: bool, custom_group: Option<&str>) -> (r: Vec<
    Segment,
>)
    ensures
        path_view(r@) == grouping_path(record.fields@, reverse, crate::entity::opt_view(custom_group)),
{
    let f = &record.fields;
    let mut path: Vec<Segment> = Vec::new();
    let indirect_name = f.indirect_source.name();
    if f.indirect_source.is_none() || f.target.is_none() {
        path.push(Segment::Value(f.value_name.clone()));
    } else {
        match indirect_name {
            Some(n) => {
                if reverse {
                    path.push(Segment::Value(owned(n)));
                    path.push(Segment::Group(f.value_name.clone()));
                } else {
                    path.push(Segment::Value(f.value_name.clone()));
                    path.push(Segment::Group(owned(n)));
                }
            },
            None => {
                path.push(Segment::Value(f.value_name.clone()));
            },
        }
    }
    if let Some(g) = custom_group {
        path.push(Segment::Group(owned(g)));
    }
    assert(path_view(path@) =~= grouping_path(
        record.fields@,
        reverse,
        crate::entity::opt_view(custom_group),
    ));
    path
}

/// A time span, start and end in milliseconds since 1970.
#[derive(Debug, Clone, Copy, PartialEq, Eq, Structural)]
pub struct Span {
    pub start: i64,
    pub end: i64,
}

/// The span `s` stretched to end at `t`, or a new span at `t`.
pub open spec fn stretched(s: Option<Span>, t: i64) -> Span {
    match s {
        Some(s) => Span { start: s.start, end: t },
        None => Span { start: t, end: t },
    }
}

fn stretch(s: &mut Option<Span>, t: i64)
    ensures
        *final(s) == Some(stretched(*old(s), t)),
{
    match s {
        Some(span) => {
            span.end = t;
        },
        None => {
            *s = Some(Span { start: t, end: t });
        },
    }
}

/// The other party of a record a player did: for a record on nobody the
/// player's own name, else the target's name or, failing that, the indirect
/// source's; empty when there is none.
pub open spec fn other_party(r: RecordFieldsView) -> Seq<char> {
    let n = if r.target is Empty && r.indirect_source is Empty {
        entity_name(r.source)
    } else {
        match entity_name(r.target) {
            Some(t) => Some(t),
            None => entity_name(r.indirect_source),
        }
    };
    match n {
        Some(n) => n,
        None => seq![],
    }
}

/// [`other_party`] of `record`.
pub(crate) fn other_party_name(record: &Record) -> (r: String)
    ensures
        r@ == other_party(record.fields@),
{
    let f = &record.fields;
    let other = if record.is_self_directed() {
        f.source.name()
    } else {
        match f.target.name() {
            Some(n) => Some(n),
            None => f.indirect_source.name(),
        }
    };
    match other {
        Some(n) => owned(n),
        None => String::new(),
    }
}

/// Whether a heal `me` did lands back on `me`: the target is `me`, or there
/// is neither a target nor an indirect source.
pub open spec fn heal_lands_on(r: RecordFieldsView, me: Seq<char>) -> bool {
    match r.target {
        EntityView::Player { full_name, .. } => full_name == me,
        EntityView::Empty => r.indirect_source is Empty,
        _ => false,
    }
}

pub open spec fn reversed(p: Seq<SegmentView>) -> Seq<SegmentView> {
    p.reverse()
}

/// Where a heal goes: `path` with the other party on top (unless there is
/// none, as for a self heal), and the same path read backwards.
pub open spec fn heal_placement(pool: Pool, path: Seq<SegmentView>, person: Option<Seq<char>>) -> (
    Pool,
    Seq<SegmentView>,
    Seq<SegmentView>,
) {
    let by_person = match person {
        Some(p) => path.push(SegmentView::Group(p)),
        None => path,
    };
    (pool, by_person, by_person.reverse())
}

/// A placement as plain values.
pub enum PlacementView {
    Skip,
    DamageOut(Seq<SegmentView>),
    DamageIn(Seq<SegmentView>),
    Heal(Pool, Seq<SegmentView>, Seq<SegmentView>),
}

impl View for Placement {
    type V = PlacementView;

    open spec fn view(&self) -> PlacementView {
        match self {
            Placement::Skip => PlacementView::Skip,
            Placement::DamageOut(p) => PlacementView::DamageOut(path_view(p@)),
            Placement::DamageIn(p) => PlacementView::DamageIn(path_view(p@)),
            Placement::Heal { pool, by_person, by_ability } => PlacementView::Heal(
                *pool,
                path_view(by_person@),
                path_view(by_ability@),
            ),
        }
    }
}

/// Where a record `me` did goes in `me`'s trees, given the grouping path.
/// Damage `me` did to itself directly goes nowhere.
pub open spec fn out_placement(r: RecordFieldsView, is_damage: bool, me: Seq<char>, path: Seq<SegmentView>) -> PlacementView {
    if is_damage {
        if r.target is Empty && r.indirect_source is Empty {
            PlacementView::Skip
        } else {
            PlacementView::DamageOut(seq![SegmentView::Group(other_party(r))] + path)
        }
    } else {
        let on_self = heal_lands_on(r, me);
        let (pool, a, b) = heal_placement(
            if on_self {
                Pool::SelfHeal
            } else {
                Pool::Ally
            },
            path,
            if on_self {
                None
            } else {
                Some(other_party(r))
            },
        );
        PlacementView::Heal(pool, a, b)
    }
}

/// The name of a record's source, empty when there is none.
pub open spec fn source_name(r: RecordFieldsView) -> Seq<char> {
    match entity_name(r.source) {
        Some(n) => n,
        None => seq![],
    }
}

/// Where a record done to `me` goes in `me`'s trees. Healing `me` did itself
/// is already kept on the doing side and goes nowhere here.
pub open spec fn in_placement(r: RecordFieldsView, is_damage: bool, me: Seq<char>, path: Seq<SegmentView>) -> PlacementView {
    if is_damage {
        PlacementView::DamageIn(path.push(SegmentView::Group(source_name(r))))
    } else if r.source matches EntityView::Player { full_name, .. } && full_name == me {
        PlacementView::Skip
    } else {
        let (pool, a, b) = heal_placement(Pool::Received, path, Some(source_name(r)));
        PlacementView::Heal(pool, a, b)
    }
}

/// Where a record goes for a player it is credited to in direction `d`.
pub open spec fn placement_for(
    r: RecordFieldsView,
    is_damage: bool,
    me: Seq<char>,
    path: Seq<SegmentView>,
    d: Direction,
) -> PlacementView {
    match d {
        Direction::Out => out_placement(r, is_damage, me, path),
        Direction::In => in_placement(r, is_damage, me, path),
    }
}

/// How many heal ticks a heal record `r` puts into `me`'s pools, over the
/// credits `s`.
pub open spec fn heal_count(r: RecordFieldsView, me: Seq<char>, path: Seq<SegmentView>, s: Seq<(Seq<char>, Direction)>) -> nat
    decreases s.len(),
{
    if s.len() == 0 {
        0
    } else {
        (if s[0].0 == me && placement_for(r, false, me, path, s[0].1) is Heal {
            1nat
        } else {
            0nat
        }) + heal_count(r, me, path, s.drop_first())
    }
}

/// A heal done by what acts for `me` (a pet or a console) on `me`.
pub open spec fn helper_heals_its_owner(r: RecordFieldsView, me: Seq<char>) -> bool {
    &&& r.source is NonPlayer
    &&& r.indirect_source matches EntityView::Player { full_name, .. } && full_name == me
    &&& r.target matches EntityView::Player { full_name, .. } && full_name == me
}

/// A heal lands in at most one of a player's three pools: a self heal is kept
/// as self healing and not again as healing received, and a heal between two
/// players is the healer's healing done and the other's healing received.
///
/// The one exception is a heal that a player's own pet or console puts on
/// that same player, which is credited both as aimed at the player and as
/// done by what acts for the player; it is left out here.
pub proof fn lemma_heal_lands_in_one_pool(r: RecordFieldsView, me: Seq<char>, path: Seq<SegmentView>)
    requires
        !helper_heals_its_owner(r, me),
    ensures
        heal_count(r, me, path, recipients(r)) <= 1,
{
    reveal_with_fuel(heal_count, 5);
    let s = recipients(r);
    assert(s.len() <= 4);
    if s.len() >= 1 {
        assert(s.drop_first().len() == s.len() - 1);
    }
}

/// The two sides of a heal between two players: the healer keeps it as
/// healing done to the other, the other as healing received from the healer;
/// and a player's own heal on nobody else is self healing with no level
/// naming the player again.
pub proof fn lemma_heal_sides(r: RecordFieldsView, a: Seq<char>, b: Seq<char>, path: Seq<SegmentView>)
    requires
        r.source matches EntityView::Player { full_name, .. } && full_name == a,
    ensures
        (r.target matches EntityView::Player { full_name, .. } && full_name == b && a != b) ==> {
            &&& out_placement(r, false, a, path) == PlacementView::Heal(
                Pool::Ally,
                path.push(SegmentView::Group(b)),
                path.push(SegmentView::Group(b)).reverse(),
            )
            &&& in_placement(r, false, b, path) == PlacementView::Heal(
                Pool::Received,
                path.push(SegmentView::Group(a)),
                path.push(SegmentView::Group(a)).reverse(),
            )
        },
        (r.target is Empty && r.indirect_source is Empty) ==> out_placement(r, false, a, path)
            == PlacementView::Heal(Pool::SelfHeal, path, path.reverse()) && in_placement(r, false, a, path) is Skip,
{
}

fn clone_segment(s: &Segment) -> (r: Segment)
    ensures
        r@ == s@,
{
    match s {
        Segment::Value(v) => Segment::Value(v.clone()),
        Segment::Group(g) => Segment::Group(g.clone()),
    }
}

pub(crate) fn reverse_path(p: &Vec<Segment>) -> (r: Vec<Segment>)
    ensures
        path_view(r@) == path_view(p@).reverse(),
{
    let mut r: Vec<Segment> = Vec::new();
    let mut i: usize = p.len();
    while i > 0
        invariant
            i <= p@.len(),
            path_view(r@) == path_view(p@).subrange(i as int, p@.len() as int).reverse(),
        decreases i,
    {
        i -= 1;
        let ghost prev = path_view(r@);
        r.push(clone_segment(&p[i]));
        let ghost whole = path_view(p@);
        assert(path_view(r@) =~= prev.push(whole[i as int]));
        assert(whole.subrange(i as int, p@.len() as int).reverse() =~= whole.subrange(
            i + 1,
            p@.len() as int,
        ).reverse().push(whole[i as int]));
    }
    assert(path_view(p@).subrange(0, p@.len() as int) =~= path_view(p@));
    r
}

fn heal_paths(path: Vec<Segment>, person: Option<String>) -> (r: (Vec<Segment>, Vec<Segment>))
    ensures
        ({
            let (_, a, b) = heal_placement(
                Pool::Ally,
                path_view(path@),
                match person {
                    Some(p) => Some(p@),
                    None => None,
                },
            );
            path_view(r.0@) == a && path_view(r.1@) == b
        }),
{
    let mut by_person = path;
    let ghost before = path_view(by_person@);
    if let Some(p) = person {
        by_person.push(Segment::Group(p));
        assert(path_view(by_person@) =~= before.push(SegmentView::Group(p@)));
    }
    let by_ability = reverse_path(&by_person);
    (by_person, by_ability)
}

/// A player's times in a combat. Its damage and heal trees are kept by the
/// caller, at the paths this module gives.
#[derive(Debug, Clone)]
pub struct Player {
    pub name: String,
    /// From its first to its last damage that did something.
    pub combat_time: Option<Span>,
    /// From its first to its last record.
    pub active_time: Option<Span>,
}

impl Player {
    pub fn new(name: String) -> (r: Player)
        ensures
            r.name@ == name@,
            r.combat_time is None,
            r.active_time is None,
    {
        Player { name, combat_time: None, active_time: None }
    }

    /// Takes a record this player did. `excluded` says that an exclusion rule
    /// for outgoing damage matched; `reverse` and `custom_group` are what the
    /// grouping rules say of the record.
    pub fn add_out_value(
        &mut self,
        record: &Record,
        excluded: bool,
        reverse: bool,
        custom_group: Option<&str>,
    ) -> (r: Placement)
        ensures
            final(self).name == old(self).name,
            excluded ==> r@ is Skip && *final(self) == *old(self),
            !excluded ==> r@ == out_placement(
                record.fields@,
                kind_is_damage(record.value.kind),
                old(self).name@,
                grouping_path(record.fields@, reverse, crate::entity::opt_view(custom_group)),
            ),
            !excluded ==> final(self).active_time == Some(stretched(old(self).active_time, record.fields.time)),
            !excluded ==> final(self).combat_time == if r@ is DamageOut && !(value_all_zero(record.value)
                || has_flag(record.fields.value_flags@, "Immune"@)) {
                Some(stretched(old(self).combat_time, record.fields.time))
            } else {
                old(self).combat_time
            },
    {
        if excluded {
            return Placement::Skip;
        }
        let t = record.fields.time;
        stretch(&mut self.active_time, t);
        let path = build_grouping_path(record, reverse, custom_group);
        let f = &record.fields;
        let other = if record.is_self_directed() {
            f.source.name()
        } else {
            match f.target.name() {
                Some(n) => Some(n),
                None => f.indirect_source.name(),
            }
        };
        let other: String = match other {
            Some(n) => owned(n),
            None => String::new(),
        };
        assert(other@ == other_party(record.fields@));
        if record.value.is_damage() {
            if record.is_direct_self_damage() {
                return Placement::Skip;
            }
            let mut full: Vec<Segment> = Vec::new();
            full.push(Segment::Group(other));
            let ghost tail = path_view(path@);
            let mut path = path;
            full.append(&mut path);
            assert(path_view(full@) =~= seq![SegmentView::Group(other_party(record.fields@))] + tail);
            if !record.is_immune_or_zero() {
                stretch(&mut self.combat_time, t);
            }
            Placement::DamageOut(full)
        } else {
            let on_self = match &f.target {
                Entity::Player { full_name, .. } => str_eq(full_name.as_str(), self.name.as_str()),
                Entity::Empty => f.indirect_source.is_none(),
                _ => false,
            };
            let pool = if on_self {
                Pool::SelfHeal
            } else {
                Pool::Ally
            };
            let person = if on_self {
                None
            } else {
                Some(other)
            };
            let (by_person, by_ability) = heal_paths(path, person);
            Placement::Heal { pool, by_person, by_ability }
        }
    }

    /// Takes a record done to this player.
    pub fn add_in_value(&mut self, record: &Record, reverse: bool, custom_group: Option<&str>) -> (r:
        Placement)
        ensures
            final(self).name == old(self).name,
            r@ == in_placement(
                record.fields@,
                kind_is_damage(record.value.kind),
                old(self).name@,
                grouping_path(record.fields@, reverse, crate::entity::opt_view(custom_group)),
            ),
            final(self).combat_time == old(self).combat_time,
            final(self).active_time == if kind_is_damage(record.value.kind) {
                Some(stretched(old(self).active_time, record.fields.time))
            } else {
                old(self).active_time
            },
    {
        let f = &record.fields;
        let source: String = match f.source.name() {
            Some(n) => owned(n),
            None => String::new(),
        };
        let path = build_grouping_path(record, reverse, custom_group);
        if record.value.is_damage() {
            let mut path = path;
            let ghost before = path_view(path@);
            path.push(Segment::Group(source));
            assert(path_view(path@) =~= before.push(SegmentView::Group(source_name(record.fields@))));
            stretch(&mut self.active_time, f.time);
            return Placement::DamageIn(path);
        }
        let source_is_self = match &f.source {
            Entity::Player { full_name, .. } => str_eq(full_name.as_str(), self.name.as_str()),
            _ => false,
        };
        if source_is_self {
            return Placement::Skip;
        }
        let (by_person, by_ability) = heal_paths(path, Some(source));
        Placement::Heal { pool: Pool::Received, by_person, by_ability }
    }
}


/// A player as plain values.
pub struct PlayerView {
    pub name: Seq<char>,
    pub combat_time: Option<Span>,
    pub active_time: Option<Span>,
}

impl View for Player {
    type V = PlayerView;

    open spec fn view(&self) -> PlayerView {
        PlayerView { name: self.name@, combat_time: self.combat_time, active_time: self.active_time }
    }
}

pub open spec fn player_views(ps: Seq<Player>) -> Seq<PlayerView> {
    ps.map_values(|p: Player| p@)
}

/// The position of the first player called `name`, or the number of players
/// when nobody is called so.
pub open spec fn player_index(ps: Seq<PlayerView>, name: Seq<char>) -> int
    decreases ps.len(),
{
    if ps.len() == 0 {
        0
    } else if ps[0].name == name {
        0
    } else {
        1 + player_index(ps.drop_first(), name)
    }
}

/// `player_index` is the first position holding `name`.
pub proof fn lemma_player_index(ps: Seq<PlayerView>, name: Seq<char>)
    ensures
        0 <= player_index(ps, name) <= ps.len(),
        forall|k: int| 0 <= k < player_index(ps, name) ==> ps[k].name != name,
        player_index(ps, name) < ps.len() ==> ps[player_index(ps, name)].name == name,
    decreases ps.len(),
{
    if ps.len() > 0 && ps[0].name != name {
        let rest = ps.drop_first();
        lemma_player_index(rest, name);
        assert forall|k: int| 0 <= k < player_index(ps, name) implies ps[k].name != name by {
            if k > 0 {
                assert(ps[k] == rest[k - 1]);
            }
        }
        if player_index(ps, name) < ps.len() {
            assert(ps[player_index(ps, name)] == rest[player_index(rest, name)]);
        }
    }
}

/// The players `ps` with a new one called `name`, with no times yet, at the
/// end when nobody is called so.
pub open spec fn with_player(ps: Seq<PlayerView>, name: Seq<char>) -> Seq<PlayerView> {
    if player_index(ps, name) < ps.len() {
        ps
    } else {
        ps.push(PlayerView { name, combat_time: None, active_time: None })
    }
}

/// After `with_player`, the player called `name` is where `player_index`
/// said it would be.
pub proof fn lemma_with_player(ps: Seq<PlayerView>, name: Seq<char>)
    ensures
        player_index(with_player(ps, name), name) == player_index(ps, name),
        player_index(ps, name) < with_player(ps, name).len(),
        with_player(ps, name)[player_index(ps, name)].name == name,
{
    lemma_player_index(ps, name);
    let w = with_player(ps, name);
    lemma_player_index(w, name);
    if player_index(ps, name) == ps.len() {
        assert(w[ps.len() as int].name == name);
        assert forall|k: int| 0 <= k < ps.len() implies w[k].name != name by {
            assert(w[k] == ps[k]);
        }
    }
}

/// A player's times after a record credited to it in direction `d`. The doer
/// takes the record into its active time, and into its combat time when it
/// is damage on somebody that did something (`quiet` says that it did not);
/// unless an exclusion rule matched (`excluded`). The receiver takes damage
/// into its active time.
pub open spec fn credit_times(
    p: PlayerView,
    r: RecordFieldsView,
    is_damage: bool,
    quiet: bool,
    excluded: bool,
    d: Direction,
) -> PlayerView {
    match d {
        Direction::Out => if excluded {
            p
        } else {
            PlayerView {
                name: p.name,
                combat_time: if is_damage && !(r.target is Empty && r.indirect_source is Empty) && !quiet {
                    Some(stretched(p.combat_time, r.time))
                } else {
                    p.combat_time
                },
                active_time: Some(stretched(p.active_time, r.time)),
            }
        },
        Direction::In => PlayerView {
            name: p.name,
            combat_time: p.combat_time,
            active_time: if is_damage {
                Some(stretched(p.active_time, r.time))
            } else {
                p.active_time
            },
        },
    }
}

/// A combat's players after the credits `s` of one record, taken in order:
/// each credited player is found by name, or added, and takes the record in.
pub open spec fn credited(
    ps: Seq<PlayerView>,
    r: RecordFieldsView,
    is_damage: bool,
    quiet: bool,
    excluded: bool,
    s: Seq<(Seq<char>, Direction)>,
) -> Seq<PlayerView>
    decreases s.len(),
{
    if s.len() == 0 {
        ps
    } else {
        let before = credited(ps, r, is_damage, quiet, excluded, s.drop_last());
        let c = s.last();
        let with = with_player(before, c.0);
        let k = player_index(with, c.0);
        with.update(k, credit_times(with[k], r, is_damage, quiet, excluded, c.1))
    }
}

/// Where a record goes for one of its credits: nowhere for the doer when an
/// exclusion rule matched, else as `placement_for` says.
pub open spec fn credit_placement(
    r: RecordFieldsView,
    is_damage: bool,
    excluded: bool,
    me: Seq<char>,
    path: Seq<SegmentView>,
    d: Direction,
) -> PlacementView {
    if d == Direction::Out && excluded {
        PlacementView::Skip
    } else {
        placement_for(r, is_damage, me, path, d)
    }
}

/// No two players share a name.
pub open spec fn distinct_names(ps: Seq<PlayerView>) -> bool {
    forall|a: int, b: int| 0 <= a < b < ps.len() ==> ps[a].name != ps[b].name
}

/// One credit: the players keep their places and names, the credited one is
/// at `player_index`, and no name comes in twice.
proof fn lemma_credit_step(
    ps: Seq<PlayerView>,
    r: RecordFieldsView,
    is_damage: bool,
    quiet: bool,
    excluded: bool,
    c: (Seq<char>, Direction),
)
    ensures
        ({
            let with = with_player(ps, c.0);
            let k = player_index(with, c.0);
            let next = with.update(k, credit_times(with[k], r, is_damage, quiet, excluded, c.1));
            &&& k == player_index(ps, c.0)
            &&& ps.len() <= next.len()
            &&& forall|i: int| 0 <= i < ps.len() ==> #[trigger] next[i].name == ps[i].name
            &&& 0 <= k < next.len()
            &&& next[k].name == c.0
            &&& distinct_names(ps) ==> distinct_names(next)
        }),
{
    lemma_player_index(ps, c.0);
    lemma_with_player(ps, c.0);
    let with = with_player(ps, c.0);
    let k = player_index(with, c.0);
    let next = with.update(k, credit_times(with[k], r, is_damage, quiet, excluded, c.1));
    assert forall|i: int| 0 <= i < ps.len() implies #[trigger] next[i].name == ps[i].name by {
        assert(with[i] == ps[i]);
    }
    if distinct_names(ps) {
        assert forall|a: int, b: int| 0 <= a < b < next.len() implies next[a].name != next[b].name by {
            assert(next[a].name == with[a].name);
            assert(next[b].name == with[b].name);
            if b == ps.len() {
                assert(with[b].name == c.0);
            }
        }
    }
}

/// Later credits keep the places and names of the players earlier ones left.
proof fn lemma_credited_extends(
    ps: Seq<PlayerView>,
    r: RecordFieldsView,
    is_damage: bool,
    quiet: bool,
    excluded: bool,
    s: Seq<(Seq<char>, Direction)>,
    m: int,
)
    requires
        0 <= m <= s.len(),
    ensures
        credited(ps, r, is_damage, quiet, excluded, s.take(m)).len() <= credited(
            ps,
            r,
            is_damage,
            quiet,
            excluded,
            s,
        ).len(),
        forall|i: int|
            0 <= i < credited(ps, r, is_damage, quiet, excluded, s.take(m)).len() ==> #[trigger] credited(
                ps,
                r,
                is_damage,
                quiet,
                excluded,
                s,
            )[i].name == credited(ps, r, is_damage, quiet, excluded, s.take(m))[i].name,
    decreases s.len(),
{
    if m == s.len() {
        assert(s.take(m) =~= s);
    } else {
        let t = s.drop_last();
        lemma_credited_extends(ps, r, is_damage, quiet, excluded, t, m);
        assert(t.take(m) =~= s.take(m));
        lemma_credit_step(credited(ps, r, is_damage, quiet, excluded, t), r, is_damage, quiet, excluded, s.last());
    }
}

/// Crediting a record never lists a player twice in a combat, and every
/// player it is credited to is then listed, at the position the credit
/// names.
pub proof fn lemma_players_stay_distinct(
    ps: Seq<PlayerView>,
    r: RecordFieldsView,
    is_damage: bool,
    quiet: bool,
    excluded: bool,
    s: Seq<(Seq<char>, Direction)>,
)
    ensures
        distinct_names(ps) ==> distinct_names(credited(ps, r, is_damage, quiet, excluded, s)),
        forall|j: int|
            0 <= j < s.len() ==> {
                let k = player_index(credited(ps, r, is_damage, quiet, excluded, s.take(j)), #[trigger] s[j].0);
                &&& 0 <= k < credited(ps, r, is_damage, quiet, excluded, s).len()
                &&& credited(ps, r, is_damage, quiet, excluded, s)[k].name == s[j].0
            },
    decreases s.len(),
{
    if s.len() > 0 {
        let t = s.drop_last();
        lemma_players_stay_distinct(ps, r, is_damage, quiet, excluded, t);
        lemma_credit_step(credited(ps, r, is_damage, quiet, excluded, t), r, is_damage, quiet, excluded, s.last());
        assert forall|j: int| 0 <= j < s.len() implies {
            let k = player_index(credited(ps, r, is_damage, quiet, excluded, s.take(j)), #[trigger] s[j].0);
            &&& 0 <= k < credited(ps, r, is_damage, quiet, excluded, s).len()
            &&& credited(ps, r, is_damage, quiet, excluded, s)[k].name == s[j].0
        } by {
            let c = credited(ps, r, is_damage, quiet, excluded, s.take(j));
            assert(s.take(j + 1).drop_last() =~= s.take(j));
            assert(s.take(j + 1).last() == s[j]);
            lemma_credit_step(c, r, is_damage, quiet, excluded, s[j]);
            lemma_credited_extends(ps, r, is_damage, quiet, excluded, s, j + 1);
        }
    }
}

pub open spec fn critter_views(c: Seq<Critter>) -> Seq<(Seq<char>, u32)> {
    c.map_values(|x: Critter| (x.unique_name@, x.deaths))
}

/// The position of the first critter named `name`.
pub open spec fn critter_index(c: Seq<(Seq<char>, u32)>, name: Seq<char>, i: int) -> Option<int>
    decreases c.len() - i,
{
    if i < 0 || i >= c.len() {
        None
    } else if c[i].0 == name {
        Some(i)
    } else {
        critter_index(c, name, i + 1)
    }
}

/// `c` with an entry for `name` (added at the end when missing).
pub open spec fn with_critter(c: Seq<(Seq<char>, u32)>, name: Seq<char>) -> Seq<(Seq<char>, u32)> {
    match critter_index(c, name, 0) {
        Some(_) => c,
        None => c.push((name, 0u32)),
    }
}

/// One more, counting round to zero past the largest count.
pub open spec fn wrap_inc(x: u32) -> u32 {
    if x == u32::MAX {
        0
    } else {
        (x + 1) as u32
    }
}

/// `c` with one more death for `name`.
pub open spec fn with_death(c: Seq<(Seq<char>, u32)>, name: Seq<char>) -> Seq<(Seq<char>, u32)> {
    let c = with_critter(c, name);
    match critter_index(c, name, 0) {
        Some(i) => c.update(i, (name, wrap_inc(c[i].1))),
        None => c,
    }
}

pub open spec fn nonplayer_name(e: EntityView) -> Option<Seq<char>> {
    match e {
        EntityView::NonPlayer { unique_name, .. } => Some(unique_name),
        _ => None,
    }
}

pub open spec fn maybe_with(c: Seq<(Seq<char>, u32)>, name: Option<Seq<char>>) -> Seq<(Seq<char>, u32)> {
    match name {
        Some(n) => with_critter(c, n),
        None => c,
    }
}

/// The entity facts after a record: every non-player source and target is
/// present; a killing blow of damage to a non-player target adds a death.
pub open spec fn critters_after(c: Seq<(Seq<char>, u32)>, r: RecordFieldsView, is_damage: bool) -> Seq<
    (Seq<char>, u32),
> {
    let c = maybe_with(maybe_with(c, nonplayer_name(r.source)), nonplayer_name(r.target));
    if is_damage && has_flag(r.value_flags, "Kill"@) {
        match nonplayer_name(r.target) {
            Some(n) => with_death(c, n),
            None => c,
        }
    } else {
        c
    }
}

/// The position of the entity named `name`, added when missing.
fn critter_slot(critters: &mut Vec<Critter>, name: &str) -> (i: usize)
    ensures
        critter_views(final(critters)@) == with_critter(critter_views(old(critters)@), name@),
        critter_index(critter_views(final(critters)@), name@, 0) == Some(i as int),
        i < final(critters)@.len(),
{
    let ghost v = critter_views(critters@);
    let mut i: usize = 0;
    while i < critters.len()
        invariant
            i <= critters@.len(),
            v == critter_views(critters@),
            critter_index(v, name@, i as int) == critter_index(v, name@, 0),
        decreases critters.len() - i,
    {
        if str_eq(critters[i].unique_name.as_str(), name) {
            return i;
        }
        i += 1;
    }
    critters.push(Critter { unique_name: owned(name), deaths: 0 });
    assert(critter_views(critters@) =~= v.push((name@, 0u32)));
    proof {
        lemma_critter_index_push(v, name@, 0);
    }
    i
}

proof fn lemma_critter_index_push(v: Seq<(Seq<char>, u32)>, name: Seq<char>, i: int)
    requires
        0 <= i <= v.len(),
        critter_index(v, name, i) is None,
    ensures
        critter_index(v.push((name, 0u32)), name, i) == Some(v.len() as int),
    decreases v.len() - i,
{
    if i < v.len() {
        lemma_critter_index_push(v, name, i + 1);
    }
}

/// What the outgoing damage of a combat's players adds up to, as far as the
/// signs of the magnitudes tell: whether some hit counted had a magnitude
/// other than zero, and whether some had one that is not a number (which
/// makes the sum not a number either).
#[derive(Debug, Clone, Copy, PartialEq, Eq, Structural)]
pub struct DamageTally {
    pub nonzero: bool,
    pub unordered: bool,
}

/// A tally with nothing counted yet.
pub open spec fn no_damage() -> DamageTally {
    DamageTally { nonzero: false, unordered: false }
}

/// Whether a record counts towards its combat's outgoing damage: damage a
/// player did to somebody (not directly to itself), not excluded by a rule,
/// on a target that was not immune.
pub open spec fn counts_as_damage_out(r: RecordFieldsView, is_damage: bool, excluded: bool) -> bool {
    &&& r.source is Player
    &&& is_damage
    &&& !excluded
    &&& !(r.target is Empty && r.indirect_source is Empty)
    &&& !has_flag(r.value_flags, "Immune"@)
}

/// The tally `t` after a record with magnitude `magnitude`.
pub open spec fn tally_after(
    t: DamageTally,
    r: RecordFieldsView,
    is_damage: bool,
    excluded: bool,
    magnitude: NumberClass,
) -> DamageTally {
    if counts_as_damage_out(r, is_damage, excluded) {
        DamageTally {
            nonzero: t.nonzero || magnitude == NumberClass::Negative || magnitude == NumberClass::Positive,
            unordered: t.unordered || magnitude == NumberClass::Unordered,
        }
    } else {
        t
    }
}

/// Whether the damage tallied adds up to more than zero: some magnitude was
/// not zero, and none was not a number.
pub open spec fn dealt_damage(t: DamageTally) -> bool {
    t.nonzero && !t.unordered
}

/// For each combat, whether its players dealt damage.
pub open spec fn damage_flags(combats: Seq<Combat>) -> Seq<bool> {
    combats.map_values(|c: Combat| dealt_damage(c.damage_out))
}

/// One fight: a run of records with no gap longer than the separation time.
pub struct Combat {
    /// The user naming rules that matched, by rule name, each name once, in
    /// the order they first matched. (A list rather than a hash map: vstd's
    /// hash-map contracts hold only for hashers it knows to be valid, and
    /// the order of a hash map is not fixed anyway.)
    pub combat_names: Vec<(String, CombatName)>,
    /// From the first to the last damage a player dealt that did something.
    pub combat_time: Option<Span>,
    /// From the first to the last record.
    pub active_time: Span,
    /// The byte range of the combat in the log.
    pub log_pos: Option<(u64, u64)>,
    /// Facts on the non-player entities, for detection.
    pub critters: Vec<Critter>,
    pub detected_map: Option<String>,
    pub detected_difficulty: Option<Difficulty>,
    pub detected_combat_type: Option<String>,
    pub players: Vec<Player>,
    /// The players' outgoing damage, as far as its signs tell.
    pub damage_out: DamageTally,
}

/// The name of a combat before environment and tier are appended: the
/// matched naming rules, comma-separated; else the detected map; else
/// `Combat`.
pub open spec fn base_name_of(names: Seq<(String, CombatName)>, map: Option<Seq<char>>) -> Seq<char> {
    if names.len() > 0 {
        join(
            names.map_values(
                |n: (String, CombatName)| combat_name_text(n.1.name@, views(n.1.additional_infos@)),
            ),
            ", "@,
        )
    } else {
        match map {
            Some(m) => m,
            None => "Combat"@,
        }
    }
}

/// A time written in `layout`, empty when it cannot be written.
pub open spec fn time_text(millis: i64, layout: Seq<char>) -> Seq<char> {
    match formatted_time(millis, layout) {
        Some(t) => t,
        None => seq![],
    }
}

/// A combat's name: the base name with the environment and the tier appended.
pub open spec fn combat_name_of(c: Combat) -> Seq<char> {
    with_difficulty(
        with_combat_type(
            base_name_of(c.combat_names@, opt_string_view(c.detected_map)),
            opt_string_view(c.detected_combat_type),
        ),
        c.detected_difficulty,
    )
}

/// How a combat is listed: `name | date start - end`.
pub open spec fn identifier_of(c: Combat) -> Seq<char> {
    combat_name_of(c) + " | "@ + time_text(c.active_time.start, DATE_LAYOUT@) + " "@ + time_text(
        c.active_time.start,
        CLOCK_LAYOUT@,
    ) + " - "@ + time_text(c.active_time.end, CLOCK_LAYOUT@)
}

/// A combat as a file name: `name date start - end`, the times with dashes.
pub open spec fn file_identifier_of(c: Combat) -> Seq<char> {
    combat_name_of(c) + " "@ + time_text(c.active_time.start, DATE_LAYOUT@) + " "@ + time_text(
        c.active_time.start,
        FILE_CLOCK_LAYOUT@,
    ) + " - "@ + time_text(c.active_time.end, FILE_CLOCK_LAYOUT@)
}

fn time_chars(millis: i64, layout: &str) -> (r: Vec<char>)
    requires
        crate::timefmt::is_layout(layout@),
    ensures
        r@ == time_text(millis, layout@),
{
    match format_time(millis, layout) {
        Some(t) => chars_of(t.as_str()),
        None => Vec::new(),
    }
}

impl Combat {
    /// A combat that starts with `record`.
    pub fn new(record: &Record) -> (r: Combat)
        ensures
            r.active_time == (Span { start: record.fields.time, end: record.fields.time }),
            r.combat_time == if record.fields.source@ is Player && kind_is_damage(record.value.kind) {
                Some(Span { start: record.fields.time, end: record.fields.time })
            } else {
                None
            },
            r.log_pos == record.fields.log_pos,
            r.combat_names@.len() == 0,
            r.critters@.len() == 0,
            r.players@.len() == 0,
            r.detected_map is None && r.detected_difficulty is None && r.detected_combat_type is None,
            r.damage_out == no_damage(),
    {
        let t = record.fields.time;
        Combat {
            combat_names: Vec::new(),
            combat_time: if record.is_player_out_damage() {
                Some(Span { start: t, end: t })
            } else {
                None
            },
            active_time: Span { start: t, end: t },
            log_pos: record.fields.log_pos,
            critters: Vec::new(),
            detected_map: None,
            detected_difficulty: None,
            detected_combat_type: None,
            players: Vec::new(),
            damage_out: DamageTally { nonzero: false, unordered: false },
        }
    }

    /// Stretches the combat's times to `record`: the active time always, the
    /// combat time when a player dealt damage that did something.
    pub fn update_time(&mut self, record: &Record)
        ensures
            final(self).active_time == (Span { start: old(self).active_time.start, end: record.fields.time }),
            final(self).combat_time == if record.fields.source@ is Player && kind_is_damage(record.value.kind)
                && !(value_all_zero(record.value) || has_flag(record.fields.value_flags@, "Immune"@)) {
                Some(stretched(old(self).combat_time, record.fields.time))
            } else {
                old(self).combat_time
            },
            final(self).log_pos == old(self).log_pos,
            final(self).critters == old(self).critters,
            final(self).players == old(self).players,
            final(self).combat_names == old(self).combat_names,
            final(self).detected_map == old(self).detected_map,
            final(self).detected_difficulty == old(self).detected_difficulty,
            final(self).detected_combat_type == old(self).detected_combat_type,
            final(self).damage_out == old(self).damage_out,
    {
        if record.is_player_out_damage() && !record.is_immune_or_zero() {
            stretch(&mut self.combat_time, record.fields.time);
        }
        self.active_time.end = record.fields.time;
    }

    /// Extends the combat's byte range to the end of `record`'s, when both
    /// are known.
    pub fn update_log_pos(&mut self, record: &Record)
        ensures
            final(self).log_pos == match (old(self).log_pos, record.fields.log_pos) {
                (Some(p), Some(q)) => Some((p.0, q.1)),
                (p, _) => p,
            },
            final(self).active_time == old(self).active_time,
            final(self).combat_time == old(self).combat_time,
            final(self).critters == old(self).critters,
            final(self).players == old(self).players,
            final(self).combat_names == old(self).combat_names,
            final(self).detected_map == old(self).detected_map,
            final(self).detected_difficulty == old(self).detected_difficulty,
            final(self).detected_combat_type == old(self).detected_combat_type,
            final(self).damage_out == old(self).damage_out,
    {
        if let (Some(p), Some(q)) = (self.log_pos, record.fields.log_pos) {
            self.log_pos = Some((p.0, q.1));
        }
    }

    /// Notes the non-player entities of `record` and the deaths it records.
    pub fn update_critters(&mut self, record: &Record)
        ensures
            critter_views(final(self).critters@) == critters_after(
                critter_views(old(self).critters@),
                record.fields@,
                kind_is_damage(record.value.kind),
            ),
            final(self).active_time == old(self).active_time,
            final(self).combat_time == old(self).combat_time,
            final(self).log_pos == old(self).log_pos,
            final(self).players == old(self).players,
            final(self).combat_names == old(self).combat_names,
            final(self).detected_map == old(self).detected_map,
            final(self).detected_difficulty == old(self).detected_difficulty,
            final(self).detected_combat_type == old(self).detected_combat_type,
            final(self).damage_out == old(self).damage_out,
    {
        let f = &record.fields;
        if let Entity::NonPlayer { unique_name, .. } = &f.source {
            critter_slot(&mut self.critters, unique_name.as_str());
        }
        if let Entity::NonPlayer { unique_name, .. } = &f.target {
            critter_slot(&mut self.critters, unique_name.as_str());
        }
        proof {
            reveal_strlit("Kill");
        }
        if record.value.is_damage() && str_contains(f.value_flags.as_str(), "Kill") {
            if let Entity::NonPlayer { unique_name, .. } = &f.target {
                let ghost before = critter_views(self.critters@);
                let i = critter_slot(&mut self.critters, unique_name.as_str());
                let old_d = self.critters[i].deaths;
                let d: u32 = if old_d == u32::MAX {
                    0
                } else {
                    old_d + 1
                };
                self.critters.set(i, Critter { unique_name: owned(unique_name.as_str()), deaths: d });
                assert(critter_views(self.critters@) =~= with_death(before, unique_name@));
            }
        }
    }

    /// The position of the player called `name`, added when missing.
    pub fn get_player(&mut self, name: &str) -> (i: usize)
        ensures
            i < final(self).players@.len(),
            final(self).players@[i as int].name@ == name@,
            forall|k: int| 0 <= k < i && k < old(self).players@.len() ==> old(self).players@[k].name@ != name@,
            i < old(self).players@.len() ==> final(self).players@ == old(self).players@,
            i >= old(self).players@.len() ==> ({
                &&& i == old(self).players@.len()
                &&& final(self).players@.len() == old(self).players@.len() + 1
                &&& final(self).players@.take(i as int) == old(self).players@
                &&& final(self).players@[i as int].combat_time is None
                &&& final(self).players@[i as int].active_time is None
            }),
            final(self).active_time == old(self).active_time,
            final(self).combat_time == old(self).combat_time,
            final(self).log_pos == old(self).log_pos,
            final(self).critters == old(self).critters,
            final(self).combat_names == old(self).combat_names,
            final(self).detected_map == old(self).detected_map,
            final(self).detected_difficulty == old(self).detected_difficulty,
            final(self).detected_combat_type == old(self).detected_combat_type,
            final(self).damage_out == old(self).damage_out,
    {
        let mut i: usize = 0;
        while i < self.players.len()
            invariant
                i <= self.players@.len(),
                forall|k: int| 0 <= k < i ==> self.players@[k].name@ != name@,
            decreases self.players.len() - i,
        {
            if str_eq(self.players[i].name.as_str(), name) {
                return i;
            }
            i += 1;
        }
        let ghost before = self.players@;
        self.players.push(Player::new(owned(name)));
        assert(self.players@.take(i as int) =~= before);
        i
    }

    /// Sets the detected map, tier and environment from the combat's
    /// entities. `hull` holds the hull-table verdicts of every map.
    pub fn update_detection(&mut self, rules: &DetectionRules, hull: &Vec<HullVerdicts>)
        requires
            verdicts_fit(rules.maps@, hull@),
        ensures
            (opt_string_view(final(self).detected_map), final(self).detected_difficulty, opt_string_view(
                final(self).detected_combat_type,
            )) == detection(rules.maps@, old(self).critters@, hull@),
            final(self).critters == old(self).critters,
            final(self).players == old(self).players,
            final(self).combat_names == old(self).combat_names,
            final(self).active_time == old(self).active_time,
            final(self).combat_time == old(self).combat_time,
            final(self).log_pos == old(self).log_pos,
            final(self).damage_out == old(self).damage_out,
    {
        let d = detect(rules, &self.critters, hull);
        self.detected_map = d.map;
        self.detected_difficulty = d.difficulty;
        self.detected_combat_type = d.combat_type;
    }

    /// Replaces the matched naming rules; a later rule of the same name
    /// replaces an earlier one in its place.
    pub fn set_combat_names(&mut self, names: Vec<CombatName>)
        ensures
            forall|i: int| 0 <= i < final(self).combat_names@.len() ==> (#[trigger] final(self).combat_names@[i]).0@ == final(self).combat_names@[i].1.name@,
            name_views(final(self).combat_names@) == names_after(
                names@.map_values(|n: CombatName| (n.name@, views(n.additional_infos@))),
            ),
            final(self).active_time == old(self).active_time,
            final(self).critters == old(self).critters,
            final(self).players == old(self).players,
            final(self).combat_time == old(self).combat_time,
            final(self).log_pos == old(self).log_pos,
            final(self).detected_map == old(self).detected_map,
            final(self).detected_difficulty == old(self).detected_difficulty,
            final(self).detected_combat_type == old(self).detected_combat_type,
            final(self).damage_out == old(self).damage_out,
    {
        let ghost input = names@.map_values(|n: CombatName| (n.name@, views(n.additional_infos@)));
        let mut out: Vec<(String, CombatName)> = Vec::new();
        for i in 0..names.len()
            invariant
                input == names@.map_values(|n: CombatName| (n.name@, views(n.additional_infos@))),
                forall|k: int| 0 <= k < out@.len() ==> (#[trigger] out@[k]).0@ == out@[k].1.name@,
                name_views(out@) == names_after(input.take(i as int)),
        {
            let ghost before = name_views(out@);
            let n = CombatName::new(names[i].name.clone(), clone_strings(&names[i].additional_infos));
            assert(input.take(i + 1).drop_last() =~= input.take(i as int));
            assert(input.take(i + 1).last() == (n.name@, views(n.additional_infos@)));
            match find_name(&out, n.name.as_str()) {
                Some(j) => {
                    let key = out[j].0.clone();
                    out.set(j, (key, n));
                    assert(name_views(out@) =~= before.update(j as int, (n.name@, views(n.additional_infos@))));
                },
                None => {
                    let key = n.name.clone();
                    out.push((key, n));
                    assert(name_views(out@) =~= before.push((n.name@, views(n.additional_infos@))));
                },
            }
        }
        assert(input.take(names@.len() as int) =~= input);
        self.combat_names = out;
    }

    /// The combat's name without environment and tier.
    pub fn base_name(&self) -> (r: String)
        ensures
            r@ == base_name_of(self.combat_names@, opt_string_view(self.detected_map)),
    {
        if self.combat_names.len() > 0 {
            let mut texts: Vec<String> = Vec::new();
            for i in 0..self.combat_names.len()
                invariant
                    views(texts@) == self.combat_names@.take(i as int).map_values(
                        |n: (String, CombatName)| combat_name_text(n.1.name@, views(n.1.additional_infos@)),
                    ),
            {
                let ghost prev = views(texts@);
                let t = self.combat_names[i].1.format();
                texts.push(t);
                assert(views(texts@) =~= prev.push(t@));
                assert(self.combat_names@.take(i + 1) =~= self.combat_names@.take(i as int).push(self.combat_names@[i as int]));
                assert(views(texts@) =~= self.combat_names@.take(i + 1).map_values(
                    |n: (String, CombatName)| combat_name_text(n.1.name@, views(n.1.additional_infos@)),
                ));
            }
            assert(self.combat_names@.take(self.combat_names@.len() as int) =~= self.combat_names@);
            join_strings(&texts, ", ")
        } else {
            match &self.detected_map {
                Some(m) => m.clone(),
                None => {
                    proof {
                        reveal_strlit("Combat");
                    }
                    owned("Combat")
                },
            }
        }
    }

    /// The combat's name: the base name with the environment and the tier
    /// appended.
    pub fn name(&self) -> (r: String)
        ensures
            r@ == combat_name_of(*self),
    {
        let base = self.base_name();
        let ct: Option<&str> = match &self.detected_combat_type {
            Some(t) => Some(t.as_str()),
            None => None,
        };
        let base = append_detected_combat_type(base, ct);
        append_detected_difficulty(base, self.detected_difficulty)
    }

    /// The combat as listed: `name | date start - end`.
    pub fn identifier(&self) -> (r: String)
        ensures
            r@ == identifier_of(*self),
    {
        proof {
            reveal_strlit("%Y-%m-%d");
            reveal_strlit("%T");
        }
        let name = self.name();
        let mut out = chars_of(name.as_str());
        extend_str(&mut out, " | ");
        let d = time_chars(self.active_time.start, DATE_LAYOUT);
        extend(&mut out, &d);
        extend_str(&mut out, " ");
        let a = time_chars(self.active_time.start, CLOCK_LAYOUT);
        extend(&mut out, &a);
        extend_str(&mut out, " - ");
        let b = time_chars(self.active_time.end, CLOCK_LAYOUT);
        extend(&mut out, &b);
        string_of(&out)
    }

    /// The combat as a file name: `name date start - end`, the times with
    /// dashes.
    pub fn file_identifier(&self) -> (r: String)
        ensures
            r@ == file_identifier_of(*self),
    {
        proof {
            reveal_strlit("%Y-%m-%d");
            reveal_strlit("%H-%M-%S");
        }
        let name = self.name();
        let mut out = chars_of(name.as_str());
        extend_str(&mut out, " ");
        let d = time_chars(self.active_time.start, DATE_LAYOUT);
        extend(&mut out, &d);
        extend_str(&mut out, " ");
        let a = time_chars(self.active_time.start, FILE_CLOCK_LAYOUT);
        extend(&mut out, &a);
        extend_str(&mut out, " - ");
        let b = time_chars(self.active_time.end, FILE_CLOCK_LAYOUT);
        extend(&mut out, &b);
        string_of(&out)
    }
}

/// The naming rules as plain values: each rule's name and extra infos.
pub open spec fn name_views(s: Seq<(String, CombatName)>) -> Seq<(Seq<char>, Seq<Seq<char>>)> {
    s.map_values(|e: (String, CombatName)| (e.1.name@, views(e.1.additional_infos@)))
}

/// The first position from `i` on of a rule called `name`.
pub open spec fn name_index(s: Seq<(Seq<char>, Seq<Seq<char>>)>, name: Seq<char>, i: int) -> Option<int>
    decreases s.len() - i,
{
    if i < 0 || i >= s.len() {
        None
    } else if s[i].0 == name {
        Some(i)
    } else {
        name_index(s, name, i + 1)
    }
}

/// The rules after `names` were set one after the other: a rule replaces one
/// of the same name in its place, or comes last.
pub open spec fn names_after(names: Seq<(Seq<char>, Seq<Seq<char>>)>) -> Seq<(Seq<char>, Seq<Seq<char>>)>
    decreases names.len(),
{
    if names.len() == 0 {
        seq![]
    } else {
        let before = names_after(names.drop_last());
        let n = names.last();
        match name_index(before, n.0, 0) {
            Some(j) => before.update(j, n),
            None => before.push(n),
        }
    }
}

fn find_name(v: &Vec<(String, CombatName)>, name: &str) -> (r: Option<usize>)
    requires
        forall|k: int| 0 <= k < v@.len() ==> (#[trigger] v@[k]).0@ == v@[k].1.name@,
    ensures
        r matches Some(j) ==> j < v@.len() && v@[j as int].0@ == name@,
        match r {
            Some(j) => name_index(name_views(v@), name@, 0) == Some(j as int),
            None => name_index(name_views(v@), name@, 0) is None,
        },
{
    let ghost s = name_views(v@);
    let mut j: usize = 0;
    while j < v.len()
        invariant
            j <= v@.len(),
            s == name_views(v@),
            forall|k: int| 0 <= k < v@.len() ==> (#[trigger] v@[k]).0@ == v@[k].1.name@,
            name_index(s, name@, j as int) == name_index(s, name@, 0),
        decreases v.len() - j,
    {
        if str_eq(v[j].0.as_str(), name) {
            assert(s[j as int].0 == name@);
            return Some(j);
        }
        assert(s[j as int].0 != name@);
        j += 1;
    }
    None
}

fn clone_strings(v: &Vec<String>) -> (r: Vec<String>)
    ensures
        views(r@) == views(v@),
{
    let mut r: Vec<String> = Vec::new();
    for i in 0..v.len()
        invariant
            views(r@) == views(v@).take(i as int),
    {
        let ghost prev = views(r@);
        r.push(v[i].clone());
        assert(views(r@) =~= prev.push(v@[i as int]@));
        assert(views(r@) =~= views(v@).take(i + 1));
    }
    assert(views(v@).take(v@.len() as int) =~= views(v@));
    r
}

/// Whether a record at `t` starts a new fight after one whose last record was
/// at `last_end`: the gap is longer than the separation time.
pub open spec fn starts_new_combat(last_end: i64, t: i64, separation_seconds: i64) -> bool {
    t - last_end > separation_seconds * 1000
}

/// Whether a record at `t` opens a new combat after the combats `before`:
/// there is none yet, or the gap since the last one is too long.
pub open spec fn opens_combat(before: Seq<Combat>, t: i64, separation_seconds: i64) -> bool {
    before.len() == 0 || starts_new_combat(before[before.len() - 1].active_time.end, t, separation_seconds)
}

/// The players of the combat a record at `t` goes into, before the record.
pub open spec fn players_before(before: Seq<Combat>, t: i64, separation_seconds: i64) -> Seq<Player> {
    if opens_combat(before, t, separation_seconds) {
        seq![]
    } else {
        before[before.len() - 1].players@
    }
}

/// The damage tally of the combat a record at `t` goes into, before the
/// record.
pub open spec fn damage_before(before: Seq<Combat>, t: i64, separation_seconds: i64) -> DamageTally {
    if opens_combat(before, t, separation_seconds) {
        no_damage()
    } else {
        before[before.len() - 1].damage_out
    }
}

/// `after` is `before` with `record` put at position `i`: into a new combat
/// when it opens one, else into the last; the combat's times, byte range and
/// entities take the record in, and nothing else changes but its players.
pub open spec fn placed(before: Seq<Combat>, separation_seconds: i64, record: Record, after: Seq<Combat>, i: int) -> bool {
    let n = before.len();
    let t = record.fields.time;
    let fresh = opens_combat(before, t, separation_seconds);
    let c = after[i];
    let counts = record.fields.source@ is Player && kind_is_damage(record.value.kind);
    let start_time = if fresh {
        if counts {
            Some(Span { start: t, end: t })
        } else {
            None
        }
    } else {
        before[n - 1].combat_time
    };
    let start_pos = if fresh {
        record.fields.log_pos
    } else {
        before[n - 1].log_pos
    };
    let start_critters = if fresh {
        Seq::<Critter>::empty()
    } else {
        before[n - 1].critters@
    };
    &&& fresh ==> after.len() == n + 1 && i == n
    &&& !fresh ==> after.len() == n && i == n - 1
    &&& forall|k: int| 0 <= k < i ==> after[k] == before[k]
    &&& c.active_time == (Span {
        start: if fresh {
            t
        } else {
            before[n - 1].active_time.start
        },
        end: t,
    })
    &&& c.combat_time == if counts && !(value_all_zero(record.value) || has_flag(
        record.fields.value_flags@,
        "Immune"@,
    )) {
        Some(stretched(start_time, t))
    } else {
        start_time
    }
    &&& c.log_pos == match (start_pos, record.fields.log_pos) {
        (Some(p), Some(q)) => Some((p.0, q.1)),
        (p, _) => p,
    }
    &&& critter_views(c.critters@) == critters_after(
        critter_views(start_critters),
        record.fields@,
        kind_is_damage(record.value.kind),
    )
    &&& fresh ==> c.combat_names@.len() == 0 && c.detected_map is None && c.detected_difficulty is None
        && c.detected_combat_type is None
    &&& !fresh ==> c.combat_names == before[n - 1].combat_names && c.detected_map == before[n - 1].detected_map
        && c.detected_difficulty == before[n - 1].detected_difficulty && c.detected_combat_type
        == before[n - 1].detected_combat_type
}

/// Splits records into combats, in log order.
pub struct Analyzer {
    pub combats: Vec<Combat>,
    /// The longest gap between two records of one fight.
    pub combat_separation_seconds: i64,
}

impl Analyzer {
    pub fn new(combat_separation_seconds: i64) -> (r: Analyzer)
        ensures
            r.combats@.len() == 0,
            r.combat_separation_seconds == combat_separation_seconds,
    {
        Analyzer { combats: Vec::new(), combat_separation_seconds }
    }

    /// Puts `record` into the current combat, or into a new one when there is
    /// none or the gap since the last record is longer than the separation
    /// time; returns the combat's position. `first_modified` keeps the first
    /// combat touched since the caller last recomputed.
    pub fn place_record(&mut self, record: &Record, first_modified: &mut Option<usize>) -> (i: usize)
        ensures
            final(self).combat_separation_seconds == old(self).combat_separation_seconds,
            placed(old(self).combats@, old(self).combat_separation_seconds, *record, final(self).combats@, i as int),
            final(self).combats@[i as int].players@ == players_before(
                old(self).combats@,
                record.fields.time,
                old(self).combat_separation_seconds,
            ),
            final(self).combats@[i as int].damage_out == damage_before(
                old(self).combats@,
                record.fields.time,
                old(self).combat_separation_seconds,
            ),
            *final(first_modified) == match *old(first_modified) {
                Some(f) => Some(f),
                None => Some(i),
            },
    {
        let n = self.combats.len();
        let fresh = if n == 0 {
            true
        } else {
            let end = self.combats[n - 1].active_time.end;
            (record.fields.time as i128) - (end as i128) > (self.combat_separation_seconds as i128)
                * 1000
        };
        if fresh {
            self.combats.push(Combat::new(record));
        }
        let i = self.combats.len() - 1;
        let mut combat = self.combats.remove(i);
        let ghost start = critter_views(combat.critters@);
        assert(fresh ==> start =~= critter_views(Seq::<Critter>::empty()));
        combat.update_time(record);
        combat.update_log_pos(record);
        combat.update_critters(record);
        self.combats.insert(i, combat);
        if first_modified.is_none() {
            *first_modified = Some(i);
        }
        i
    }

    /// Takes in one record of the log: puts it into its combat, as
    /// `place_record` does, credits it to the players it concerns, in the
    /// order `recipients` gives, and tallies it into the combat's outgoing
    /// damage when it counts there. Returns the combat's position and, per
    /// credit, the position of the player in the combat and where the record
    /// goes in that player's trees. `excluded`, `reverse` and `custom_group`
    /// are what the grouping rules say of the record.
    pub fn process_next_record(
        &mut self,
        record: &Record,
        first_modified: &mut Option<usize>,
        excluded: bool,
        reverse: bool,
        custom_group: Option<&str>,
    ) -> (r: (usize, Vec<(usize, Placement)>))
        ensures
            final(self).combat_separation_seconds == old(self).combat_separation_seconds,
            placed(old(self).combats@, old(self).combat_separation_seconds, *record, final(self).combats@, r.0 as int),
            *final(first_modified) == match *old(first_modified) {
                Some(f) => Some(f),
                None => Some(r.0),
            },
            ({
                let start = player_views(
                    players_before(old(self).combats@, record.fields.time, old(self).combat_separation_seconds),
                );
                let s = recipients(record.fields@);
                let is_damage = kind_is_damage(record.value.kind);
                let quiet = value_all_zero(record.value) || has_flag(record.fields.value_flags@, "Immune"@);
                let path = grouping_path(record.fields@, reverse, crate::entity::opt_view(custom_group));
                &&& player_views(final(self).combats@[r.0 as int].players@) == credited(
                    start,
                    record.fields@,
                    is_damage,
                    quiet,
                    excluded,
                    s,
                )
                &&& r.1@.len() == s.len()
                &&& forall|j: int| 0 <= j < s.len() ==> (#[trigger] r.1@[j]).0 == player_index(
                    credited(start, record.fields@, is_damage, quiet, excluded, s.take(j)),
                    s[j].0,
                ) && r.1@[j].1@ == credit_placement(record.fields@, is_damage, excluded, s[j].0, path, s[j].1)
                &&& forall|j: int| 0 <= j < s.len() ==> (#[trigger] r.1@[j]).0 < final(self).combats@[r.0 as int].players@.len()
                    && final(self).combats@[r.0 as int].players@[r.1@[j].0 as int].name@ == s[j].0
                &&& distinct_names(start) ==> distinct_names(player_views(final(self).combats@[r.0 as int].players@))
            }),
            final(self).combats@[r.0 as int].damage_out == tally_after(
                damage_before(old(self).combats@, record.fields.time, old(self).combat_separation_seconds),
                record.fields@,
                kind_is_damage(record.value.kind),
                excluded,
                record.value.value1,
            ),
    {
        let i = self.place_record(record, first_modified);
        let credits = record_recipients(record);
        let ghost mid = self.combats@;
        let mut combat = self.combats.remove(i);
        let ghost frame = combat;
        let ghost start = player_views(combat.players@);
        let ghost s = recipients(record.fields@);
        let ghost is_damage = kind_is_damage(record.value.kind);
        let ghost quiet = value_all_zero(record.value) || has_flag(record.fields.value_flags@, "Immune"@);
        let ghost path = grouping_path(record.fields@, reverse, crate::entity::opt_view(custom_group));
        let mut out: Vec<(usize, Placement)> = Vec::new();
        assert(s.take(0) =~= Seq::<(Seq<char>, Direction)>::empty());
        for j in 0..credits.len()
            invariant
                recipient_views(credits@) == s,
                s == recipients(record.fields@),
                is_damage == kind_is_damage(record.value.kind),
                quiet == (value_all_zero(record.value) || has_flag(record.fields.value_flags@, "Immune"@)),
                path == grouping_path(record.fields@, reverse, crate::entity::opt_view(custom_group)),
                player_views(combat.players@) == credited(start, record.fields@, is_damage, quiet, excluded, s.take(j as int)),
                combat.active_time == frame.active_time,
                combat.combat_time == frame.combat_time,
                combat.log_pos == frame.log_pos,
                combat.critters == frame.critters,
                combat.combat_names == frame.combat_names,
                combat.detected_map == frame.detected_map,
                combat.detected_difficulty == frame.detected_difficulty,
                combat.detected_combat_type == frame.detected_combat_type,
                combat.damage_out == frame.damage_out,
                out@.len() == j,
                forall|m: int| 0 <= m < j ==> (#[trigger] out@[m]).0 == player_index(
                    credited(start, record.fields@, is_damage, quiet, excluded, s.take(m)),
                    s[m].0,
                ) && out@[m].1@ == credit_placement(record.fields@, is_damage, excluded, s[m].0, path, s[m].1),
        {
            let name = &credits[j].0;
            let d = credits[j].1;
            assert(s[j as int] == (name@, d));
            let ghost before = player_views(combat.players@);
            let ghost old_players = combat.players@;
            let k = combat.get_player(name.as_str());
            proof {
                lemma_player_index(before, name@);
                lemma_with_player(before, name@);
                if k < old_players.len() {
                    assert(combat.players@ == old_players);
                    assert(player_index(before, name@) == k as int) by {
                        if player_index(before, name@) < k {
                            assert(before[player_index(before, name@)].name == old_players[player_index(
                                before,
                                name@,
                            )].name@);
                        }
                        assert(before[k as int].name == name@);
                    }
                } else {
                    assert forall|m: int| 0 <= m < before.len() implies before[m].name != name@ by {
                        assert(before[m].name == old_players[m].name@);
                    }
                    assert(player_views(combat.players@) =~= with_player(before, name@));
                }
                assert(player_views(combat.players@) =~= with_player(before, name@));
            }
            let ghost with = player_views(combat.players@);
            let mut p = combat.players.remove(k);
            let placement = match d {
                Direction::Out => p.add_out_value(record, excluded, reverse, custom_group),
                Direction::In => p.add_in_value(record, reverse, custom_group),
            };
            proof {
                assert(p@ == credit_times(with[k as int], record.fields@, is_damage, quiet, excluded, d));
            }
            combat.players.insert(k, p);
            proof {
                assert(player_views(combat.players@) =~= with.update(
                    k as int,
                    credit_times(with[k as int], record.fields@, is_damage, quiet, excluded, d),
                ));
                assert(s.take(j + 1).drop_last() =~= s.take(j as int));
                assert(s.take(j + 1).last() == s[j as int]);
            }
            out.push((k, placement));
        }
        assert(s.take(credits@.len() as int) =~= s);
        proof {
            reveal_strlit("Immune");
        }
        if record.fields.source.is_player() && record.value.is_damage() && !excluded
            && !record.is_self_directed() && !str_contains(record.fields.value_flags.as_str(), "Immune") {
            let m = record.value.value1;
            combat.damage_out = DamageTally {
                nonzero: combat.damage_out.nonzero || m == NumberClass::Negative || m == NumberClass::Positive,
                unordered: combat.damage_out.unordered || m == NumberClass::Unordered,
            };
        }
        proof {
            lemma_players_stay_distinct(start, record.fields@, is_damage, quiet, excluded, s);
            assert forall|j: int| 0 <= j < s.len() implies (#[trigger] out@[j]).0 < combat.players@.len()
                && combat.players@[out@[j].0 as int].name@ == s[j].0 by {
                assert(player_views(combat.players@)[out@[j].0 as int].name == combat.players@[out@[j].0 as int].name@);
            }
        }
        self.combats.insert(i, combat);
        assert(self.combats@ =~= mid.update(i as int, self.combats@[i as int]));
        (i, out)
    }

    /// For each combat, whether its players dealt damage that adds up to
    /// more than zero.
    pub fn combats_with_damage(&self) -> (r: Vec<bool>)
        ensures
            r@ == damage_flags(self.combats@),
    {
        let mut keep: Vec<bool> = Vec::new();
        for i in 0..self.combats.len()
            invariant
                keep@ == damage_flags(self.combats@.take(i as int)),
        {
            let t = self.combats[i].damage_out;
            keep.push(t.nonzero && !t.unordered);
            assert(keep@ =~= damage_flags(self.combats@.take(i + 1)));
        }
        assert(self.combats@.take(self.combats@.len() as int) =~= self.combats@);
        keep
    }

    /// Drops the combats in which no player dealt damage that adds up to
    /// more than zero: bursts of idle records (fall damage, self buffs) that
    /// would otherwise each stand as a combat. The newest combat is no
    /// exception.
    pub fn discard_combats_without_damage(&mut self)
        ensures
            final(self).combat_separation_seconds == old(self).combat_separation_seconds,
            final(self).combats@ == kept(
                old(self).combats@,
                damage_flags(old(self).combats@),
            ),
    {
        let keep = self.combats_with_damage();
        self.retain(&keep);
    }

    /// The byte ranges in the log of the combats at `indices`, in that order;
    /// nothing when one of them is not there or has no range, so that a log is
    /// never rewritten without a combat that was meant to stay.
    pub fn ranges_of(&self, indices: &Vec<usize>) -> (r: Option<Vec<(u64, u64)>>)
        ensures
            r is Some <==> forall|j: int| 0 <= j < indices@.len() ==> #[trigger] indices@[j] < self.combats@.len()
                && self.combats@[indices@[j] as int].log_pos is Some,
            r matches Some(v) ==> v@.len() == indices@.len() && forall|j: int| 0 <= j < indices@.len()
                ==> Some(#[trigger] v@[j]) == self.combats@[indices@[j] as int].log_pos,
    {
        let mut out: Vec<(u64, u64)> = Vec::new();
        for j in 0..indices.len()
            invariant
                out@.len() == j,
                forall|k: int| 0 <= k < j ==> #[trigger] indices@[k] < self.combats@.len()
                    && self.combats@[indices@[k] as int].log_pos is Some,
                forall|k: int| 0 <= k < j ==> Some(#[trigger] out@[k]) == self.combats@[indices@[k] as int].log_pos,
        {
            let i = indices[j];
            if i >= self.combats.len() {
                return None;
            }
            match self.combats[i].log_pos {
                Some(p) => {
                    out.push(p);
                },
                None => {
                    return None;
                },
            }
        }
        Some(out)
    }

    /// Keeps the combats whose flag in `keep` is set, in order. The caller
    /// sets it for combats in which players dealt damage.
    pub fn retain(&mut self, keep: &Vec<bool>)
        requires
            keep@.len() == old(self).combats@.len(),
        ensures
            final(self).combat_separation_seconds == old(self).combat_separation_seconds,
            final(self).combats@ == kept(old(self).combats@, keep@),
    {
        let ghost start = self.combats@;
        let n = self.combats.len();
        let mut rev: Vec<Combat> = Vec::new();
        let mut i: usize = n;
        assert(start.subrange(n as int, n as int) =~= Seq::<Combat>::empty());
        while i > 0
            invariant
                n == start.len(),
                keep@.len() == n,
                i <= n,
                self.combat_separation_seconds == old(self).combat_separation_seconds,
                self.combats@ == start.take(i as int),
                rev@ == kept(start.subrange(i as int, n as int), keep@.subrange(i as int, n as int)).reverse(),
            decreases i,
        {
            let c = self.combats.pop().unwrap();
            i -= 1;
            let ghost tail = start.subrange(i as int, n as int);
            let ghost ktail = keep@.subrange(i as int, n as int);
            assert(tail.drop_first() =~= start.subrange(i + 1, n as int));
            assert(ktail.drop_first() =~= keep@.subrange(i + 1, n as int));
            assert(self.combats@ =~= start.take(i as int));
            if keep[i] {
                rev.push(c);
                assert(rev@ =~= (seq![tail[0]] + kept(tail.drop_first(), ktail.drop_first())).reverse());
            }
        }
        assert(start.subrange(0, n as int) =~= start);
        assert(keep@.subrange(0, n as int) =~= keep@);
        let ghost all = kept(start, keep@);
        let m = rev.len();
        let mut j: usize = 0;
        while j < m
            invariant
                m == all.len(),
                self.combat_separation_seconds == old(self).combat_separation_seconds,
                rev@ == all.reverse().take(m - j),
                j <= m,
                self.combats@ == all.take(j as int),
            decreases m - j,
        {
            let c = rev.pop().unwrap();
            assert(c == all[j as int]);
            self.combats.push(c);
            assert(self.combats@ =~= all.take(j + 1));
            j += 1;
            assert(rev@ =~= all.reverse().take(m - j));
        }
        assert(all.take(m as int) =~= all);
    }
}

/// The entries of `s` whose flag in `keep` is set.
pub open spec fn kept<T>(s: Seq<T>, keep: Seq<bool>) -> Seq<T>
    decreases s.len(),
{
    if s.len() == 0 {
        seq![]
    } else {
        (if keep.len() > 0 && keep[0] {
            seq![s[0]]
        } else {
            seq![]
        }) + kept(s.drop_first(), keep.drop_first())
    }
}

/// Every combat left after the idle ones are dropped has damage that adds
/// up to more than zero, and every combat that has is left.
pub proof fn lemma_kept_combats_dealt_damage(combats: Seq<Combat>)
    ensures
        forall|k: int|
            0 <= k < kept(combats, damage_flags(combats)).len() ==> dealt_damage(
                (#[trigger] kept(combats, damage_flags(combats))[k]).damage_out,
            ),
        forall|j: int|
            0 <= j < combats.len() && dealt_damage((#[trigger] combats[j]).damage_out) ==> kept(
                combats,
                damage_flags(combats),
            ).contains(combats[j]),
    decreases combats.len(),
{
    let flags = damage_flags(combats);
    if combats.len() > 0 {
        let rest = combats.drop_first();
        lemma_kept_combats_dealt_damage(rest);
        assert(flags.drop_first() =~= damage_flags(rest));
        let head: Seq<Combat> = if flags[0] {
            seq![combats[0]]
        } else {
            seq![]
        };
        let tail = kept(rest, damage_flags(rest));
        assert(kept(combats, flags) == head + tail);
        assert forall|k: int| 0 <= k < (head + tail).len() implies dealt_damage(
            (#[trigger] (head + tail)[k]).damage_out,
        ) by {
            if k >= head.len() {
                assert((head + tail)[k] == tail[k - head.len()]);
            }
        }
        assert forall|j: int| 0 <= j < combats.len() && dealt_damage((#[trigger] combats[j]).damage_out) implies (head
            + tail).contains(combats[j]) by {
            if j == 0 {
                assert((head + tail)[0] == combats[0]);
            } else {
                assert(combats[j] == rest[j - 1]);
                let k = choose|k: int| 0 <= k < tail.len() && tail[k] == rest[j - 1];
                assert((head + tail)[k + head.len()] == tail[k]);
            }
        }
    }
}

/// A record joins the combat before it when it comes no more than the
/// separation time after that combat's last record, however long ago the
/// combat began, and the combat keeps its start; only a longer gap opens a
/// new combat, which starts at the record.
pub proof fn lemma_gap_is_measured_from_the_last_record(
    before: Seq<Combat>,
    separation_seconds: i64,
    record: Record,
    after: Seq<Combat>,
    i: int,
)
    requires
        placed(before, separation_seconds, record, after, i),
        before.len() > 0,
    ensures
        record.fields.time - before[before.len() - 1].active_time.end <= separation_seconds * 1000 ==> {
            &&& i == before.len() - 1
            &&& after.len() == before.len()
            &&& after[i].active_time.start == before[before.len() - 1].active_time.start
            &&& after[i].active_time.end == record.fields.time
        },
        record.fields.time - before[before.len() - 1].active_time.end > separation_seconds * 1000 ==> {
            &&& i == before.len()
            &&& after.len() == before.len() + 1
            &&& after[i].active_time.start == record.fields.time
            &&& after[i].active_time.end == record.fields.time
        },
{
}

/// The name a party goes by in a path: its display name, or nothing.
pub open spec fn party_name(e: EntityView) -> Seq<char> {
    match e {
        EntityView::Player { full_name, .. } => full_name,
        EntityView::NonPlayer { name, .. } => name,
        EntityView::NonPlayerCharacter { name, .. } => name,
        EntityView::Empty => seq![],
    }
}

/// Damage taken is filed under who dealt it: the damage-in path is the
/// grouping path with one more level on top, naming the record's source.
pub proof fn lemma_damage_taken_is_filed_under_the_attacker(
    r: RecordFieldsView,
    me: Seq<char>,
    path: Seq<SegmentView>,
)
    ensures
        in_placement(r, true, me, path) matches PlacementView::DamageIn(p) && p.len() == path.len() + 1
            && p.take(path.len() as int) == path && p[path.len() as int] == SegmentView::Group(
            party_name(r.source),
        ),
{
    let p = path.push(SegmentView::Group(source_name(r)));
    assert(p.take(path.len() as int) =~= path);
}

/// Damage dealt to somebody is filed under who took it: the damage-out path
/// is the grouping path with one level in front naming the target, or the
/// indirect source where there is no target; damage a party did directly to
/// itself is filed nowhere.
pub proof fn lemma_damage_dealt_is_filed_under_the_target(
    r: RecordFieldsView,
    me: Seq<char>,
    path: Seq<SegmentView>,
)
    ensures
        !(r.target is Empty && r.indirect_source is Empty) ==> (out_placement(r, true, me, path) matches PlacementView::DamageOut(p)
            && p.len() == path.len() + 1 && p.drop_first() == path && p[0] == SegmentView::Group(
            if r.target is Empty {
                party_name(r.indirect_source)
            } else {
                party_name(r.target)
            },
        )),
        (r.target is Empty && r.indirect_source is Empty) ==> out_placement(r, true, me, path) is Skip,
{
    let p = seq![SegmentView::Group(other_party(r))] + path;
    assert(p.drop_first() =~= path);
}

/// A combat is listed from its first record to its last: the identifier
/// begins with the combat's name and the date of its start, and ends with
/// the time of its last record.
pub proof fn lemma_identifier_spans_the_active_time(c: Combat)
    ensures
        (combat_name_of(c) + " | "@ + time_text(c.active_time.start, DATE_LAYOUT@)).is_prefix_of(identifier_of(c)),
        (" - "@ + time_text(c.active_time.end, CLOCK_LAYOUT@)).is_suffix_of(identifier_of(c)),
        (combat_name_of(c) + " "@ + time_text(c.active_time.start, DATE_LAYOUT@)).is_prefix_of(
            file_identifier_of(c),
        ),
        (" - "@ + time_text(c.active_time.end, FILE_CLOCK_LAYOUT@)).is_suffix_of(file_identifier_of(c)),
{
    let a = combat_name_of(c) + " | "@ + time_text(c.active_time.start, DATE_LAYOUT@);
    let b = " "@ + time_text(c.active_time.start, CLOCK_LAYOUT@);
    let e = " - "@ + time_text(c.active_time.end, CLOCK_LAYOUT@);
    assert(identifier_of(c) =~= a + b + e);
    assert(a.is_prefix_of(a + b + e)) by {
        assert((a + b + e).subrange(0, a.len() as int) =~= a);
    }
    assert(e.is_suffix_of(a + b + e)) by {
        assert((a + b + e).subrange((a + b + e).len() - e.len(), (a + b + e).len() as int) =~= e);
    }
    let fa = combat_name_of(c) + " "@ + time_text(c.active_time.start, DATE_LAYOUT@);
    let fb = " "@ + time_text(c.active_time.start, FILE_CLOCK_LAYOUT@);
    let fe = " - "@ + time_text(c.active_time.end, FILE_CLOCK_LAYOUT@);
    assert(file_identifier_of(c) =~= fa + fb + fe);
    assert(fa.is_prefix_of(fa + fb + fe)) by {
        assert((fa + fb + fe).subrange(0, fa.len() as int) =~= fa);
    }
    assert(fe.is_suffix_of(fa + fb + fe)) by {
        assert((fa + fb + fe).subrange((fa + fb + fe).len() - fe.len(), (fa + fb + fe).len() as int) =~= fe);
    }
}

/// A combat's fighting time only takes in damage a player dealt that did
/// something: a record joining a combat that is not such damage leaves the
/// combat time as it was, and one that is stretches it to the record.
pub proof fn lemma_combat_time_counts_player_damage_only(
    before: Seq<Combat>,
    separation_seconds: i64,
    record: Record,
    after: Seq<Combat>,
    i: int,
)
    requires
        placed(before, separation_seconds, record, after, i),
        before.len() > 0,
        record.fields.time - before[before.len() - 1].active_time.end <= separation_seconds * 1000,
    ensures
        !(record.fields.source@ is Player && kind_is_damage(record.value.kind)) ==> after[i].combat_time
            == before[before.len() - 1].combat_time,
        (record.fields.source@ is Player && kind_is_damage(record.value.kind) && !value_all_zero(record.value)
            && !has_flag(record.fields.value_flags@, "Immune"@)) ==> (after[i].combat_time matches Some(s)
            && s.end == record.fields.time && (before[before.len() - 1].combat_time matches Some(b) ==> s.start
            == b.start)),
{
}

} // verus!
