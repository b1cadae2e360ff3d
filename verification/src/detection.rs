//! Map and difficulty detection.
//!
//! Combat logs name no map and no difficulty; both are worked out from the
//! entities that appear. A curated map is recognized by an entity that only it
//! has (or by a set of entities together); its tier by how often particular
//! entities died and, where the tiers share death counts, by how much hull
//! damage particular entities took.
//!
//! The hull-damage checks compare medians of decimal damage figures against
//! thresholds; they are made by the caller, per hull table, and handed in as
//! [`HullVerdicts`]. Everything else is decided here.
use vstd::prelude::*;
use crate::text::{views, trim, trim_str, chars_of, extend, string_of, str_eq};
use crate::order::{strictly_sorted, sorted_distinct};

verus! {

/// A map difficulty. `Any` is a known map whose tier was not told apart.
#[derive(Debug, Clone, Copy, PartialEq, Eq, Structural)]
pub enum Difficulty {
    Any,
    Normal,
    Advanced,
    Elite,
}

pub open spec fn difficulty_label(d: Difficulty) -> Option<Seq<char>> {
    match d {
        Difficulty::Any => None,
        Difficulty::Normal => Some("Normal"@),
        Difficulty::Advanced => Some("Advanced"@),
        Difficulty::Elite => Some("Elite"@),
    }
}

impl Difficulty {
    /// The label shown for the tier; none for `Any`.
    pub fn label(self) -> (r: Option<&'static str>)
        ensures
            crate::entity::opt_view(r) == difficulty_label(self),
    {
        match self {
            Difficulty::Any => None,
            Difficulty::Normal => Some("Normal"),
            Difficulty::Advanced => Some("Advanced"),
            Difficulty::Elite => Some("Elite"),
        }
    }
}

/// The difficulty maps default to.
pub fn any_difficulty() -> (r: Difficulty)
    ensures
        r == Difficulty::Any,
{
    Difficulty::Any
}

/// Required deaths per entity for one tier. A required count of zero means
/// "present, any number of deaths".
pub struct DeathTable {
    pub tier: Difficulty,
    pub entries: Vec<(String, u32)>,
}

/// One curated map: how to recognize it and how to tell its tiers apart.
pub struct MapDef {
    /// The map's name, its key in the rules.
    pub name: String,
    /// Content type shown as a bracketed prefix (`TFO`, `Patrol`).
    pub category: Option<String>,
    /// Combat environment (`Space`, `Ground`, `Shuttle`).
    pub combat_type: Option<String>,
    /// A tier the map pins outright; `Any` when it is worked out.
    pub difficulty: Difficulty,
    /// Entities of which any one present identifies the map.
    pub identifiers: Vec<String>,
    /// Entities that identify the map only when all are present together.
    pub identifiers_all: Vec<String>,
    /// Death tables per tier.
    pub death_counts: Vec<DeathTable>,
    /// The tiers that have an all-of hull-damage table.
    pub hull_counts: Vec<Difficulty>,
    /// The tiers that have an any-of hull-damage table.
    pub hull_any: Vec<Difficulty>,
}

/// The curated maps.
pub struct DetectionRules {
    pub maps: Vec<MapDef>,
}

/// What a combat tells about one non-player entity, by its unique name.
pub struct Critter {
    pub unique_name: String,
    pub deaths: u32,
}

/// Whether each hull table of a map matched this combat, in the order of
/// [`MapDef::hull_counts`] and [`MapDef::hull_any`].
pub struct HullVerdicts {
    pub counts: Vec<bool>,
    pub any: Vec<bool>,
}

/// The detection result for a combat.
#[derive(Debug, Clone)]
pub struct Detected {
    /// The map, or `None` when nothing matched.
    pub map: Option<String>,
    /// The tier, or `None` when the map is unknown.
    pub difficulty: Option<Difficulty>,
    /// The map's environment.
    pub combat_type: Option<String>,
}

pub open spec fn opt_string_view(o: Option<String>) -> Option<Seq<char>> {
    match o {
        Some(s) => Some(s@),
        None => None,
    }
}

/// An entity with this unique name appeared.
pub open spec fn present(critters: Seq<Critter>, name: Seq<char>) -> bool {
    exists|i: int| 0 <= i < critters.len() && (#[trigger] critters[i]).unique_name@ == name
}

/// The death count recorded for the first entity with this unique name.
pub open spec fn deaths_of(critters: Seq<Critter>, name: Seq<char>) -> u32
    decreases critters.len(),
{
    if critters.len() == 0 {
        0
    } else if critters[0].unique_name@ == name {
        critters[0].deaths
    } else {
        deaths_of(critters.drop_first(), name)
    }
}

/// Whether the map's identifying entities are present: any one of the any-of
/// list, or the whole all-of list together.
pub open spec fn map_present(def: MapDef, critters: Seq<Critter>) -> bool {
    (exists|i: int| 0 <= i < def.identifiers@.len() && present(critters, #[trigger] def.identifiers@[i]@))
        || (def.identifiers_all@.len() > 0 && forall|i: int|
        0 <= i < def.identifiers_all@.len() ==> present(critters, #[trigger] def.identifiers_all@[i]@))
}

/// The name a map is shown under: its category in brackets before the bare
/// name, when it has a non-blank one.
pub open spec fn display_name(def: MapDef) -> Seq<char> {
    match def.category {
        Some(c) => if trim(c@).len() > 0 {
            "["@ + trim(c@) + "] "@ + def.name@
        } else {
            def.name@
        },
        None => def.name@,
    }
}

/// Every listed entity is present and, where a count is required, died
/// exactly that often.
pub open spec fn death_table_matches(entries: Seq<(String, u32)>, critters: Seq<Critter>) -> bool {
    forall|i: int|
        0 <= i < entries.len() ==> present(critters, (#[trigger] entries[i]).0@) && (entries[i].1 > 0
            ==> deaths_of(critters, entries[i].0@) == entries[i].1)
}

/// The first death table of the map for `tier`.
pub open spec fn death_table(tables: Seq<DeathTable>, tier: Difficulty) -> Option<DeathTable>
    decreases tables.len(),
{
    if tables.len() == 0 {
        None
    } else if tables[0].tier == tier {
        Some(tables[0])
    } else {
        death_table(tables.drop_first(), tier)
    }
}

/// The first position, from `i` on, of `tier` in `tiers`.
pub open spec fn tier_index(tiers: Seq<Difficulty>, tier: Difficulty, i: int) -> Option<int>
    decreases tiers.len() - i,
{
    if i < 0 || i >= tiers.len() {
        None
    } else if tiers[i] == tier {
        Some(i)
    } else {
        tier_index(tiers, tier, i + 1)
    }
}

/// The verdict of the first hull table of `tiers` for `tier`, if there is one.
pub open spec fn hull_verdict(tiers: Seq<Difficulty>, verdicts: Seq<bool>, tier: Difficulty) -> Option<
    bool,
> {
    match tier_index(tiers, tier, 0) {
        Some(k) => Some(verdicts[k]),
        None => None,
    }
}

/// There is a verdict for every hull table of every map.
pub open spec fn verdicts_fit(maps: Seq<MapDef>, hull: Seq<HullVerdicts>) -> bool {
    hull.len() == maps.len() && forall|i: int|
        0 <= i < maps.len() ==> (#[trigger] hull[i]).counts@.len() == maps[i].hull_counts@.len()
            && hull[i].any@.len() == maps[i].hull_any@.len()
}

/// The tier the death tables give, low tiers first and a higher matching tier
/// winning: whether there were any tables for the two tiers, and the tier.
pub open spec fn death_tier(def: MapDef, critters: Seq<Critter>) -> (bool, Option<Difficulty>) {
    let adv = death_table(def.death_counts@, Difficulty::Advanced);
    let eli = death_table(def.death_counts@, Difficulty::Elite);
    let had = adv is Some || eli is Some;
    let d = if eli matches Some(t) && death_table_matches(t.entries@, critters) {
        Some(Difficulty::Elite)
    } else if adv matches Some(t) && death_table_matches(t.entries@, critters) {
        Some(Difficulty::Advanced)
    } else {
        None
    };
    (had, d)
}

/// `d` overridden by the tables of `tiers` that matched, low tiers first.
pub open spec fn hull_override(
    tiers: Seq<Difficulty>,
    verdicts: Seq<bool>,
    d: Option<Difficulty>,
) -> Option<Difficulty> {
    if hull_verdict(tiers, verdicts, Difficulty::Elite) == Some(true) {
        Some(Difficulty::Elite)
    } else if hull_verdict(tiers, verdicts, Difficulty::Advanced) == Some(true) {
        Some(Difficulty::Advanced)
    } else {
        d
    }
}

/// The tier of an identified map: the death tables first, then the all-of
/// and the any-of hull tables overriding in turn. When the map has death
/// tables, none matched and it has no hull tables at all, the tier is `Any`.
pub open spec fn resolve_tier(def: MapDef, critters: Seq<Critter>, hull: HullVerdicts) -> Option<
    Difficulty,
> {
    let (had, d) = death_tier(def, critters);
    if had && d is None && def.hull_counts@.len() == 0 && def.hull_any@.len() == 0 {
        Some(Difficulty::Any)
    } else {
        hull_override(
            def.hull_any@,
            hull.any@,
            hull_override(def.hull_counts@, hull.counts@, d),
        )
    }
}

/// The first map, from `i` on, that is present and pins a tier.
pub open spec fn first_fixed(maps: Seq<MapDef>, critters: Seq<Critter>, i: int) -> Option<int>
    decreases maps.len() - i,
{
    if i < 0 || i >= maps.len() {
        None
    } else if map_present(maps[i], critters) && maps[i].difficulty != Difficulty::Any {
        Some(i)
    } else {
        first_fixed(maps, critters, i + 1)
    }
}

/// The last present map before `n`.
pub open spec fn last_present(maps: Seq<MapDef>, critters: Seq<Critter>, n: int) -> Option<int>
    decreases n,
{
    if n <= 0 || n > maps.len() {
        None
    } else if map_present(maps[n - 1], critters) {
        Some(n - 1)
    } else {
        last_present(maps, critters, n - 1)
    }
}

/// What detection gives, as plain values: map name, tier, environment.
pub open spec fn detection(rules: Seq<MapDef>, critters: Seq<Critter>, hull: Seq<HullVerdicts>) -> (
    Option<Seq<char>>,
    Option<Difficulty>,
    Option<Seq<char>>,
) {
    match first_fixed(rules, critters, 0) {
        Some(i) => (
            Some(display_name(rules[i])),
            Some(rules[i].difficulty),
            opt_string_view(rules[i].combat_type),
        ),
        None => match last_present(rules, critters, rules.len() as int) {
            None => (None, None, None),
            Some(j) => (
                Some(display_name(rules[j])),
                resolve_tier(rules[j], critters, hull[j]),
                opt_string_view(rules[j].combat_type),
            ),
        },
    }
}

pub open spec fn detected_view(d: Detected) -> (
    Option<Seq<char>>,
    Option<Difficulty>,
    Option<Seq<char>>,
) {
    (opt_string_view(d.map), d.difficulty, opt_string_view(d.combat_type))
}

/// Whether an entity with this unique name appeared.
pub fn is_present(critters: &Vec<Critter>, name: &str) -> (r: bool)
    ensures
        r == present(critters@, name@),
{
    let mut i: usize = 0;
    while i < critters.len()
        invariant
            i <= critters@.len(),
            forall|k: int| 0 <= k < i ==> (#[trigger] critters@[k]).unique_name@ != name@,
        decreases critters.len() - i,
    {
        if str_eq(critters[i].unique_name.as_str(), name) {
            return true;
        }
        i += 1;
    }
    false
}

/// How often the first entity with this unique name died.
pub fn deaths(critters: &Vec<Critter>, name: &str) -> (r: u32)
    ensures
        r == deaths_of(critters@, name@),
{
    let mut i: usize = 0;
    assert(critters@.subrange(0, critters@.len() as int) =~= critters@);
    while i < critters.len()
        invariant
            i <= critters@.len(),
            deaths_of(critters@.subrange(i as int, critters@.len() as int), name@) == deaths_of(
                critters@,
                name@,
            ),
        decreases critters.len() - i,
    {
        let ghost rest = critters@.subrange(i as int, critters@.len() as int);
        assert(rest.drop_first() =~= critters@.subrange(i + 1, critters@.len() as int));
        if str_eq(critters[i].unique_name.as_str(), name) {
            return critters[i].deaths;
        }
        i += 1;
    }
    0
}

/// Whether a death table matches.
pub fn death_counts_match(entries: &Vec<(String, u32)>, critters: &Vec<Critter>) -> (r: bool)
    ensures
        r == death_table_matches(entries@, critters@),
{
    let mut i: usize = 0;
    while i < entries.len()
        invariant
            i <= entries@.len(),
            forall|k: int|
                0 <= k < i ==> present(critters@, (#[trigger] entries@[k]).0@) && (entries@[k].1
                    > 0 ==> deaths_of(critters@, entries@[k].0@) == entries@[k].1),
        decreases entries.len() - i,
    {
        if !is_present(critters, entries[i].0.as_str()) {
            return false;
        }
        if entries[i].1 > 0 && deaths(critters, entries[i].0.as_str()) != entries[i].1 {
            return false;
        }
        i += 1;
    }
    true
}

impl MapDef {
    /// The name the map is shown under.
    pub fn display_name(&self) -> (r: String)
        ensures
            r@ == display_name(*self),
    {
        match &self.category {
            Some(c) => {
                let t = trim_str(c.as_str());
                if t.len() > 0 {
                    let mut out: Vec<char> = Vec::new();
                    out.push('[');
                    extend(&mut out, &t);
                    out.push(']');
                    out.push(' ');
                    let name = chars_of(self.name.as_str());
                    extend(&mut out, &name);
                    proof {
                        reveal_strlit("[");
                        reveal_strlit("] ");
                        assert(out@ =~= "["@ + trim(c@) + "] "@ + self.name@);
                    }
                    string_of(&out)
                } else {
                    self.name.clone()
                }
            },
            None => self.name.clone(),
        }
    }

    /// Whether the map's identifying entities are present.
    pub fn is_present(&self, critters: &Vec<Critter>) -> (r: bool)
        ensures
            r == map_present(*self, critters@),
    {
        let mut i: usize = 0;
        while i < self.identifiers.len()
            invariant
                i <= self.identifiers@.len(),
                forall|k: int| 0 <= k < i ==> !present(critters@, #[trigger] self.identifiers@[k]@),
            decreases self.identifiers.len() - i,
        {
            if is_present(critters, self.identifiers[i].as_str()) {
                return true;
            }
            i += 1;
        }
        if self.identifiers_all.len() == 0 {
            return false;
        }
        let mut j: usize = 0;
        while j < self.identifiers_all.len()
            invariant
                j <= self.identifiers_all@.len(),
                forall|k: int| 0 <= k < self.identifiers@.len() ==> !present(critters@, #[trigger] self.identifiers@[k]@),
                forall|k: int| 0 <= k < j ==> present(critters@, #[trigger] self.identifiers_all@[k]@),
            decreases self.identifiers_all.len() - j,
        {
            if !is_present(critters, self.identifiers_all[j].as_str()) {
                return false;
            }
            j += 1;
        }
        true
    }

    /// Whether the map keys on any entity at all.
    pub fn has_identifiers(&self) -> (r: bool)
        ensures
            r == (self.identifiers@.len() + self.identifiers_all@.len() > 0),
    {
        self.identifiers.len() > 0 || self.identifiers_all.len() > 0
    }

    fn death_table_for(&self, tier: Difficulty) -> (r: Option<&DeathTable>)
        ensures
            match (r, death_table(self.death_counts@, tier)) {
                (None, None) => true,
                (Some(a), Some(b)) => *a == b,
                _ => false,
            },
    {
        let mut i: usize = 0;
        assert(self.death_counts@.subrange(0, self.death_counts@.len() as int) =~= self.death_counts@);
        while i < self.death_counts.len()
            invariant
                i <= self.death_counts@.len(),
                death_table(self.death_counts@.subrange(i as int, self.death_counts@.len() as int), tier)
                    == death_table(self.death_counts@, tier),
            decreases self.death_counts.len() - i,
        {
            let ghost rest = self.death_counts@.subrange(i as int, self.death_counts@.len() as int);
            assert(rest.drop_first() =~= self.death_counts@.subrange(
                i + 1,
                self.death_counts@.len() as int,
            ));
            if self.death_counts[i].tier == tier {
                return Some(&self.death_counts[i]);
            }
            i += 1;
        }
        None
    }
}

/// The verdict of the first hull table for `tier`.
fn hull_verdict_exec(tiers: &Vec<Difficulty>, verdicts: &Vec<bool>, tier: Difficulty) -> (r: Option<
    bool,
>)
    requires
        verdicts@.len() == tiers@.len(),
    ensures
        r == hull_verdict(tiers@, verdicts@, tier),
{
    let mut i: usize = 0;
    while i < tiers.len()
        invariant
            i <= tiers@.len(),
            verdicts@.len() == tiers@.len(),
            tier_index(tiers@, tier, i as int) == tier_index(tiers@, tier, 0),
        decreases tiers.len() - i,
    {
        if tiers[i] == tier {
            return Some(verdicts[i]);
        }
        i += 1;
    }
    None
}

fn hull_override_exec(tiers: &Vec<Difficulty>, verdicts: &Vec<bool>, d: Option<Difficulty>) -> (r:
    Option<Difficulty>)
    requires
        verdicts@.len() == tiers@.len(),
    ensures
        r == hull_override(tiers@, verdicts@, d),
{
    if hull_verdict_exec(tiers, verdicts, Difficulty::Elite) == Some(true) {
        Some(Difficulty::Elite)
    } else if hull_verdict_exec(tiers, verdicts, Difficulty::Advanced) == Some(true) {
        Some(Difficulty::Advanced)
    } else {
        d
    }
}

/// The tier of an identified map.
pub fn resolve_tier_exec(def: &MapDef, critters: &Vec<Critter>, hull: &HullVerdicts) -> (r: Option<
    Difficulty,
>)
    requires
        hull.counts@.len() == def.hull_counts@.len(),
        hull.any@.len() == def.hull_any@.len(),
    ensures
        r == resolve_tier(*def, critters@, *hull),
{
    let adv = def.death_table_for(Difficulty::Advanced);
    let eli = def.death_table_for(Difficulty::Elite);
    let had = adv.is_some() || eli.is_some();
    let mut d: Option<Difficulty> = None;
    if let Some(t) = adv {
        if death_counts_match(&t.entries, critters) {
            d = Some(Difficulty::Advanced);
        }
    }
    if let Some(t) = eli {
        if death_counts_match(&t.entries, critters) {
            d = Some(Difficulty::Elite);
        }
    }
    if had && d.is_none() && def.hull_counts.len() == 0 && def.hull_any.len() == 0 {
        return Some(Difficulty::Any);
    }
    let d = hull_override_exec(&def.hull_counts, &hull.counts, d);
    hull_override_exec(&def.hull_any, &hull.any, d)
}

fn clone_opt(o: &Option<String>) -> (r: Option<String>)
    ensures
        opt_string_view(r) == opt_string_view(*o),
{
    match o {
        Some(s) => Some(s.clone()),
        None => None,
    }
}

/// Detects the map and tier of a combat from its entities. `hull` holds the
/// hull-table verdicts of every map, in the order of `rules.maps`.
///
/// The maps are tried in order: the first present map that pins a tier
/// decides at once; otherwise the last present map is the one, and its tier
/// is resolved from its tables.
pub fn detect(rules: &DetectionRules, critters: &Vec<Critter>, hull: &Vec<HullVerdicts>) -> (r:
    Detected)
    requires
        verdicts_fit(rules.maps@, hull@),
    ensures
        detected_view(r) == detection(rules.maps@, critters@, hull@),
{
    let maps = &rules.maps;
    let mut matched: Option<usize> = None;
    let mut i: usize = 0;
    while i < maps.len()
        invariant
            i <= maps@.len(),
            maps@ == rules.maps@,
            first_fixed(maps@, critters@, i as int) == first_fixed(maps@, critters@, 0),
            last_present(maps@, critters@, i as int) == match matched {
                Some(m) => Some(m as int),
                None => None,
            },
            matched matches Some(m) ==> m < i,
        decreases maps.len() - i,
    {
        if maps[i].is_present(critters) {
            matched = Some(i);
            if maps[i].difficulty != Difficulty::Any {
                assert(first_fixed(maps@, critters@, i as int) == Some(i as int));
                let name = maps[i].display_name();
                let ct = clone_opt(&maps[i].combat_type);
                let r = Detected { map: Some(name), difficulty: Some(maps[i].difficulty), combat_type: ct };
                return r;
            }
        }
        i += 1;
    }
    match matched {
        None => Detected { map: None, difficulty: None, combat_type: None },
        Some(j) => {
            assert(hull@[j as int].counts@.len() == maps@[j as int].hull_counts@.len());
            let def = &maps[j];
            Detected {
                map: Some(def.display_name()),
                difficulty: resolve_tier_exec(def, critters, &hull[j]),
                combat_type: clone_opt(&def.combat_type),
            }
        },
    }
}

/// The display names of the maps that key on at least one entity.
pub open spec fn detectable_names(maps: Seq<MapDef>) -> Seq<Seq<char>>
    decreases maps.len(),
{
    if maps.len() == 0 {
        seq![]
    } else {
        let rest = detectable_names(maps.drop_first());
        if maps[0].identifiers@.len() + maps[0].identifiers_all@.len() > 0 {
            seq![display_name(maps[0])] + rest
        } else {
            rest
        }
    }
}

/// The distinct names detection can produce, sorted.
pub fn curated_map_names(rules: &DetectionRules) -> (r: Vec<String>)
    ensures
        strictly_sorted(views(r@)),
        forall|s: Seq<char>| #[trigger] views(r@).contains(s) <==> detectable_names(
            rules.maps@,
        ).contains(s),
{
    let maps = &rules.maps;
    let mut names: Vec<String> = Vec::new();
    let mut i: usize = maps.len();
    while i > 0
        invariant
            i <= maps@.len(),
            views(names@) == detectable_names(maps@.subrange(i as int, maps@.len() as int)),
        decreases i,
    {
        i -= 1;
        let ghost rest = maps@.subrange(i as int, maps@.len() as int);
        assert(rest.drop_first() =~= maps@.subrange(i + 1, maps@.len() as int));
        if maps[i].has_identifiers() {
            let mut front: Vec<String> = Vec::new();
            front.push(maps[i].display_name());
            let ghost old_names = names@;
            front.append(&mut names);
            names = front;
            assert(views(names@) =~= seq![display_name(maps@[i as int])] + views(old_names));
        }
    }
    assert(maps@.subrange(0, maps@.len() as int) =~= maps@);
    sorted_distinct(names)
}

/// The `(entity unique name, map display name)` pairs of one map, any-of
/// entities first.
pub open spec fn map_identifier_pairs(def: MapDef) -> Seq<(Seq<char>, Seq<char>)> {
    (views(def.identifiers@) + views(def.identifiers_all@)).map_values(
        |u: Seq<char>| (u, display_name(def)),
    )
}

/// The pairs of all maps, in order.
pub open spec fn identifier_pairs(maps: Seq<MapDef>) -> Seq<(Seq<char>, Seq<char>)>
    decreases maps.len(),
{
    if maps.len() == 0 {
        seq![]
    } else {
        map_identifier_pairs(maps[0]) + identifier_pairs(maps.drop_first())
    }
}

pub open spec fn pair_views(v: Seq<(String, String)>) -> Seq<(Seq<char>, Seq<char>)> {
    v.map_values(|p: (String, String)| (p.0@, p.1@))
}

fn push_pairs(out: &mut Vec<(String, String)>, ids: &Vec<String>, display: &String)
    ensures
        pair_views(final(out)@) == pair_views(old(out)@) + views(ids@).map_values(
            |u: Seq<char>| (u, display@),
        ),
{
    let ghost start = pair_views(out@);
    for k in 0..ids.len()
        invariant
            pair_views(out@) == start + views(ids@).take(k as int).map_values(
                |u: Seq<char>| (u, display@),
            ),
    {
        let ghost prev = pair_views(out@);
        let id = ids[k].clone();
        let d = display.clone();
        out.push((id, d));
        assert(pair_views(out@) =~= prev.push((ids@[k as int]@, display@)));
        assert(views(ids@).take(k + 1) =~= views(ids@).take(k as int).push(ids@[k as int]@));
        assert(views(ids@).take(k + 1).map_values(|u: Seq<char>| (u, display@)) =~= views(
            ids@,
        ).take(k as int).map_values(|u: Seq<char>| (u, display@)).push((ids@[k as int]@, display@)));
        assert(pair_views(out@) =~= start + views(ids@).take(k + 1).map_values(
            |u: Seq<char>| (u, display@),
        ));
    }
    assert(views(ids@).take(ids@.len() as int) =~= views(ids@));
}

/// The entities detection keys on, each with the map it identifies.
pub fn curated_map_identifiers(rules: &DetectionRules) -> (r: Vec<(String, String)>)
    ensures
        pair_views(r@) == identifier_pairs(rules.maps@),
{
    let maps = &rules.maps;
    let mut out: Vec<(String, String)> = Vec::new();
    assert(maps@.subrange(0, maps@.len() as int) =~= maps@);
    assert(pair_views(out@) + identifier_pairs(maps@) =~= identifier_pairs(maps@));
    for i in 0..maps.len()
        invariant
            pair_views(out@) + identifier_pairs(maps@.subrange(i as int, maps@.len() as int))
                == identifier_pairs(maps@),
    {
        let ghost rest = maps@.subrange(i as int, maps@.len() as int);
        assert(rest.drop_first() =~= maps@.subrange(i + 1, maps@.len() as int));
        let ghost before = pair_views(out@);
        let display = maps[i].display_name();
        push_pairs(&mut out, &maps[i].identifiers, &display);
        push_pairs(&mut out, &maps[i].identifiers_all, &display);
        assert(views(maps@[i as int].identifiers@).map_values(|u: Seq<char>| (u, display@))
            + views(maps@[i as int].identifiers_all@).map_values(|u: Seq<char>| (u, display@))
            =~= map_identifier_pairs(maps@[i as int]));
        assert(pair_views(out@) =~= before + map_identifier_pairs(maps@[i as int]));
    }
    assert(maps@.subrange(maps@.len() as int, maps@.len() as int) =~= Seq::<MapDef>::empty());
    assert(pair_views(out@) + Seq::<(Seq<char>, Seq<char>)>::empty() =~= pair_views(out@));
    out
}

/// The map names the pairs point to.
pub open spec fn paired_names(p: Seq<(Seq<char>, Seq<char>)>) -> Seq<Seq<char>> {
    p.map_values(|x: (Seq<char>, Seq<char>)| x.1)
}

/// The entity pairs point to exactly the names that [`curated_map_names`]
/// lists: every pair names a map that keys on an entity, and every such map
/// is named by some pair.
pub proof fn lemma_identifiers_name_the_curated_maps(maps: Seq<MapDef>)
    ensures
        forall|s: Seq<char>|
            #[trigger] paired_names(identifier_pairs(maps)).contains(s) <==> detectable_names(maps).contains(s),
    decreases maps.len(),
{
    if maps.len() > 0 {
        let rest = maps.drop_first();
        lemma_identifiers_name_the_curated_maps(rest);
        let head = map_identifier_pairs(maps[0]);
        let tail = identifier_pairs(rest);
        let d = display_name(maps[0]);
        assert(identifier_pairs(maps) == head + tail);
        assert(paired_names(head + tail) =~= paired_names(head) + paired_names(tail));
        let n = views(maps[0].identifiers@) + views(maps[0].identifiers_all@);
        assert(head.len() == n.len());
        assert(n.len() == maps[0].identifiers@.len() + maps[0].identifiers_all@.len());
        assert forall|k: int| 0 <= k < head.len() implies #[trigger] paired_names(head)[k] == d by {}
        assert forall|s: Seq<char>|
            #[trigger] paired_names(identifier_pairs(maps)).contains(s) <==> detectable_names(maps).contains(s) by {
            let ph = paired_names(head);
            let pt = paired_names(tail);
            if (ph + pt).contains(s) {
                let k = choose|k: int| 0 <= k < (ph + pt).len() && (ph + pt)[k] == s;
                if k < ph.len() {
                    assert(ph[k] == d);
                    assert(detectable_names(maps)[0] == d);
                } else {
                    assert(pt[k - ph.len()] == s);
                    assert(pt.contains(s));
                    let j = choose|j: int| 0 <= j < detectable_names(rest).len() && detectable_names(rest)[j] == s;
                    if head.len() > 0 {
                        assert(detectable_names(maps)[j + 1] == s);
                    } else {
                        assert(detectable_names(maps)[j] == s);
                    }
                }
            }
            if detectable_names(maps).contains(s) {
                let j = choose|j: int| 0 <= j < detectable_names(maps).len() && detectable_names(maps)[j] == s;
                if head.len() > 0 {
                    if j == 0 {
                        assert(ph[0] == d);
                        assert((ph + pt)[0] == s);
                    } else {
                        assert(detectable_names(rest)[j - 1] == s);
                        assert(detectable_names(rest).contains(s));
                        assert(pt.contains(s));
                        let k = choose|k: int| 0 <= k < pt.len() && pt[k] == s;
                        assert((ph + pt)[k + ph.len()] == s);
                    }
                } else {
                    assert(detectable_names(rest)[j] == s);
                    assert(detectable_names(rest).contains(s));
                    assert(pt.contains(s));
                    let k = choose|k: int| 0 <= k < pt.len() && pt[k] == s;
                    assert((ph + pt)[k + ph.len()] == s);
                }
            }
        }
    }
}

/// `k` is the first any-of or all-of hull table of `tiers` for `tier`.
pub open spec fn first_table_for(tiers: Seq<Difficulty>, tier: Difficulty, k: int) -> bool {
    0 <= k < tiers.len() && tiers[k] == tier && forall|j: int| 0 <= j < k ==> tiers[j] != tier
}

/// A hull table for `tier` among `tiers` said yes.
pub open spec fn table_said_yes(tiers: Seq<Difficulty>, verdicts: Seq<bool>, tier: Difficulty) -> bool {
    exists|k: int| #[trigger] first_table_for(tiers, tier, k) && verdicts[k]
}

proof fn lemma_first_table(tiers: Seq<Difficulty>, verdicts: Seq<bool>, tier: Difficulty, i: int)
    requires
        0 <= i <= tiers.len(),
        forall|j: int| 0 <= j < i ==> tiers[j] != tier,
    ensures
        (tier_index(tiers, tier, i) == None::<int>) <==> (forall|j: int| i <= j < tiers.len() ==> tiers[j] != tier),
        tier_index(tiers, tier, i) matches Some(k) ==> first_table_for(tiers, tier, k),
    decreases tiers.len() - i,
{
    if i < tiers.len() && tiers[i] != tier {
        lemma_first_table(tiers, verdicts, tier, i + 1);
    }
}

proof fn lemma_verdict_is_the_first_table(tiers: Seq<Difficulty>, verdicts: Seq<bool>, tier: Difficulty)
    ensures
        (hull_verdict(tiers, verdicts, tier) == Some(true)) <==> table_said_yes(tiers, verdicts, tier),
{
    lemma_first_table(tiers, verdicts, tier, 0);
    if table_said_yes(tiers, verdicts, tier) {
        let k = choose|k: int| #[trigger] first_table_for(tiers, tier, k) && verdicts[k];
        match tier_index(tiers, tier, 0) {
            Some(m) => {
                assert(first_table_for(tiers, tier, m));
                if m < k {
                    assert(tiers[m] != tier);
                } else if k < m {
                    assert(tiers[k] != tier);
                }
            },
            None => {
                assert(tiers[k] != tier);
            },
        }
    }
    if hull_verdict(tiers, verdicts, tier) == Some(true) {
        let m = tier_index(tiers, tier, 0)->0;
        assert(first_table_for(tiers, tier, m));
    }
}

/// The any-of hull tables settle an identified map's tier: when one for a
/// tier says yes, and none for a higher tier does, that is the tier,
/// whatever the death and all-of tables say. When no any-of table says yes,
/// an all-of table that says yes (and none for a higher tier) settles it.
pub proof fn lemma_hull_tables_settle_the_tier(def: MapDef, critters: Seq<Critter>, hull: HullVerdicts)
    ensures
        table_said_yes(def.hull_any@, hull.any@, Difficulty::Elite) ==> resolve_tier(def, critters, hull) == Some(
            Difficulty::Elite,
        ),
        table_said_yes(def.hull_any@, hull.any@, Difficulty::Advanced) && !table_said_yes(
            def.hull_any@,
            hull.any@,
            Difficulty::Elite,
        ) ==> resolve_tier(def, critters, hull) == Some(Difficulty::Advanced),
        !table_said_yes(def.hull_any@, hull.any@, Difficulty::Elite) && !table_said_yes(
            def.hull_any@,
            hull.any@,
            Difficulty::Advanced,
        ) && table_said_yes(def.hull_counts@, hull.counts@, Difficulty::Elite) ==> resolve_tier(def, critters, hull)
            == Some(Difficulty::Elite),
        !table_said_yes(def.hull_any@, hull.any@, Difficulty::Elite) && !table_said_yes(
            def.hull_any@,
            hull.any@,
            Difficulty::Advanced,
        ) && table_said_yes(def.hull_counts@, hull.counts@, Difficulty::Advanced) && !table_said_yes(
            def.hull_counts@,
            hull.counts@,
            Difficulty::Elite,
        ) ==> resolve_tier(def, critters, hull) == Some(Difficulty::Advanced),
{
    lemma_verdict_is_the_first_table(def.hull_any@, hull.any@, Difficulty::Elite);
    lemma_verdict_is_the_first_table(def.hull_any@, hull.any@, Difficulty::Advanced);
    lemma_verdict_is_the_first_table(def.hull_counts@, hull.counts@, Difficulty::Elite);
    lemma_verdict_is_the_first_table(def.hull_counts@, hull.counts@, Difficulty::Advanced);
    if table_said_yes(def.hull_any@, hull.any@, Difficulty::Elite) {
        let k = choose|k: int| #[trigger] first_table_for(def.hull_any@, Difficulty::Elite, k) && hull.any@[k];
        assert(def.hull_any@.len() > 0);
    }
    if table_said_yes(def.hull_any@, hull.any@, Difficulty::Advanced) {
        let k = choose|k: int| #[trigger] first_table_for(def.hull_any@, Difficulty::Advanced, k) && hull.any@[k];
        assert(def.hull_any@.len() > 0);
    }
    if table_said_yes(def.hull_counts@, hull.counts@, Difficulty::Elite) {
        let k = choose|k: int| #[trigger] first_table_for(def.hull_counts@, Difficulty::Elite, k) && hull.counts@[k];
        assert(def.hull_counts@.len() > 0);
    }
    if table_said_yes(def.hull_counts@, hull.counts@, Difficulty::Advanced) {
        let k = choose|k: int| #[trigger] first_table_for(def.hull_counts@, Difficulty::Advanced, k) && hull.counts@[k];
        assert(def.hull_counts@.len() > 0);
    }
}

/// Without hull tables, the death tables settle an identified map's tier:
/// the Elite table when it matches, else the Advanced one when it matches;
/// and when the map has death tables for those tiers but neither matches,
/// the tier is `Any`. A map with neither death nor hull tables has no tier.
pub proof fn lemma_death_tables_settle_the_tier(def: MapDef, critters: Seq<Critter>, hull: HullVerdicts)
    requires
        def.hull_counts@.len() == 0,
        def.hull_any@.len() == 0,
    ensures
        (death_table(def.death_counts@, Difficulty::Elite) matches Some(t) && death_table_matches(
            t.entries@,
            critters,
        )) ==> resolve_tier(def, critters, hull) == Some(Difficulty::Elite),
        !(death_table(def.death_counts@, Difficulty::Elite) matches Some(t) && death_table_matches(
            t.entries@,
            critters,
        )) && (death_table(def.death_counts@, Difficulty::Advanced) matches Some(t) && death_table_matches(
            t.entries@,
            critters,
        )) ==> resolve_tier(def, critters, hull) == Some(Difficulty::Advanced),
        (death_table(def.death_counts@, Difficulty::Elite) is Some || death_table(
            def.death_counts@,
            Difficulty::Advanced,
        ) is Some) && !(death_table(def.death_counts@, Difficulty::Elite) matches Some(t) && death_table_matches(
            t.entries@,
            critters,
        )) && !(death_table(def.death_counts@, Difficulty::Advanced) matches Some(t) && death_table_matches(
            t.entries@,
            critters,
        )) ==> resolve_tier(def, critters, hull) == Some(Difficulty::Any),
        (death_table(def.death_counts@, Difficulty::Elite) is None && death_table(
            def.death_counts@,
            Difficulty::Advanced,
        ) is None) ==> resolve_tier(def, critters, hull) is None,
{
    assert(tier_index(def.hull_any@, Difficulty::Elite, 0) is None);
    assert(tier_index(def.hull_any@, Difficulty::Advanced, 0) is None);
    assert(tier_index(def.hull_counts@, Difficulty::Elite, 0) is None);
    assert(tier_index(def.hull_counts@, Difficulty::Advanced, 0) is None);
}

} // verus!
