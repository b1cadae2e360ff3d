//! Filtering a combats list by what was worked out about each fight: its
//! environment, its difficulty and which map it was.
use vstd::prelude::*;
use crate::text::{views, str_eq};
use crate::detection::{Difficulty, opt_string_view};
use crate::order::{strictly_sorted, sorted_distinct};

verus! {

/// The difficulty picker. `Any` matches everything; `Unknown` catches combats
/// whose tier could not be worked out.
#[derive(Debug, Clone, Copy, PartialEq, Eq, Structural)]
pub enum DifficultyFilter {
    Any,
    Normal,
    Advanced,
    Elite,
    Unknown,
}

pub open spec fn difficulty_matches(f: DifficultyFilter, d: Option<Difficulty>) -> bool {
    match f {
        DifficultyFilter::Any => true,
        DifficultyFilter::Normal => d == Some(Difficulty::Normal),
        DifficultyFilter::Advanced => d == Some(Difficulty::Advanced),
        DifficultyFilter::Elite => d == Some(Difficulty::Elite),
        DifficultyFilter::Unknown => d is None || d == Some(Difficulty::Any),
    }
}

impl DifficultyFilter {
    /// Whether a combat of difficulty `difficulty` passes. A known map whose
    /// tier was not resolved reads as unknown.
    pub fn matches(self, difficulty: Option<Difficulty>) -> (r: bool)
        ensures
            r == difficulty_matches(self, difficulty),
    {
        match self {
            DifficultyFilter::Any => true,
            DifficultyFilter::Normal => difficulty == Some(Difficulty::Normal),
            DifficultyFilter::Advanced => difficulty == Some(Difficulty::Advanced),
            DifficultyFilter::Elite => difficulty == Some(Difficulty::Elite),
            DifficultyFilter::Unknown => difficulty.is_none() || difficulty == Some(Difficulty::Any),
        }
    }

    /// The picker's choices with their labels, in menu order.
    pub fn all() -> (r: Vec<(DifficultyFilter, &'static str)>)
        ensures
            r@.len() == 5,
            r@[0].0 == DifficultyFilter::Any && r@[0].1@ == "Any"@,
            r@[1].0 == DifficultyFilter::Normal && r@[1].1@ == "Normal"@,
            r@[2].0 == DifficultyFilter::Advanced && r@[2].1@ == "Advanced"@,
            r@[3].0 == DifficultyFilter::Elite && r@[3].1@ == "Elite"@,
            r@[4].0 == DifficultyFilter::Unknown && r@[4].1@ == "Unknown"@,
    {
        let mut r: Vec<(DifficultyFilter, &'static str)> = Vec::new();
        r.push((DifficultyFilter::Any, "Any"));
        r.push((DifficultyFilter::Normal, "Normal"));
        r.push((DifficultyFilter::Advanced, "Advanced"));
        r.push((DifficultyFilter::Elite, "Elite"));
        r.push((DifficultyFilter::Unknown, "Unknown"));
        r
    }
}

/// What the filter knows about one combat of the list.
pub struct CombatEntry {
    pub environment: Option<String>,
    pub difficulty: Option<Difficulty>,
    pub base_name: String,
}

/// What a combat has to match to stay in the list. Each part defaults to
/// "all".
#[derive(Debug)]
pub struct CombatFilter {
    pub environment: Option<String>,
    pub difficulty: DifficultyFilter,
    pub map: Option<String>,
}

/// A filter as plain values: environment, difficulty, map.
pub struct FilterView {
    pub environment: Option<Seq<char>>,
    pub difficulty: DifficultyFilter,
    pub map: Option<Seq<char>>,
}

impl View for CombatFilter {
    type V = FilterView;

    open spec fn view(&self) -> FilterView {
        FilterView {
            environment: opt_string_view(self.environment),
            difficulty: self.difficulty,
            map: opt_string_view(self.map),
        }
    }
}

/// Whether a combat with these facts passes the filter `f`.
pub open spec fn filter_matches(
    f: FilterView,
    environment: Option<Seq<char>>,
    difficulty: Option<Difficulty>,
    base_name: Seq<char>,
) -> bool {
    (f.environment is None || environment == f.environment) && (f.map is None || base_name
        == f.map->0) && difficulty_matches(f.difficulty, difficulty)
}

pub open spec fn entry_matches(f: FilterView, e: CombatEntry) -> bool {
    filter_matches(f, opt_string_view(e.environment), e.difficulty, e.base_name@)
}

/// Some combat passes `f`.
pub open spec fn some_match(f: FilterView, combats: Seq<CombatEntry>) -> bool {
    exists|i: int| 0 <= i < combats.len() && entry_matches(f, #[trigger] combats[i])
}

/// `e` is the environment of some combat that passes `f`.
pub open spec fn environment_option(f: FilterView, combats: Seq<CombatEntry>, e: Seq<char>) -> bool {
    exists|i: int|
        0 <= i < combats.len() && entry_matches(f, #[trigger] combats[i]) && opt_string_view(
            combats[i].environment,
        ) == Some(e)
}

/// `m` is the base name of some combat that passes `f`.
pub open spec fn map_option(f: FilterView, combats: Seq<CombatEntry>, m: Seq<char>) -> bool {
    exists|i: int|
        0 <= i < combats.len() && entry_matches(f, #[trigger] combats[i]) && combats[i].base_name@
            == m
}

/// Some combat that passes `f` has a difficulty `d` lets through.
pub open spec fn difficulty_option(f: FilterView, combats: Seq<CombatEntry>, d: DifficultyFilter) -> bool {
    exists|i: int|
        0 <= i < combats.len() && entry_matches(f, #[trigger] combats[i]) && difficulty_matches(
            d,
            combats[i].difficulty,
        )
}

/// The dimension a menu picks in.
#[derive(Debug, Clone, Copy, PartialEq, Eq, Structural)]
pub enum Dimension {
    Environment,
    Difficulty,
    MapName,
}

/// `f` with the part of `dim` set to "all".
pub open spec fn without(f: FilterView, dim: Dimension) -> FilterView {
    match dim {
        Dimension::Environment => FilterView { environment: None, ..f },
        Dimension::Difficulty => FilterView { difficulty: DifficultyFilter::Any, ..f },
        Dimension::MapName => FilterView { map: None, ..f },
    }
}

/// What a menu may offer: the environments and maps (sorted, each once) and
/// the difficulties (in list order) of the combats that pass the other two
/// parts of the filter.
pub struct Options {
    pub environments: Vec<String>,
    pub maps: Vec<String>,
    pub difficulties: Vec<Option<Difficulty>>,
}

/// The string a combat's filter part reads.
fn clone_opt_str(o: &Option<String>) -> (r: Option<String>)
    ensures
        opt_string_view(r) == opt_string_view(*o),
{
    match o {
        Some(s) => Some(s.clone()),
        None => None,
    }
}

impl CombatFilter {
    /// The filter that lets everything through.
    pub fn new() -> (r: CombatFilter)
        ensures
            r@.environment is None && r@.map is None && r@.difficulty == DifficultyFilter::Any,
    {
        CombatFilter { environment: None, difficulty: DifficultyFilter::Any, map: None }
    }

    /// Whether any part narrows the list.
    pub fn is_active(&self) -> (r: bool)
        ensures
            r == (self@.environment is Some || self@.map is Some || self.difficulty
                != DifficultyFilter::Any),
    {
        self.environment.is_some() || self.map.is_some() || self.difficulty != DifficultyFilter::Any
    }

    /// Lets everything through again.
    pub fn clear(&mut self)
        ensures
            final(self)@.environment is None && final(self)@.map is None && final(self).difficulty
                == DifficultyFilter::Any,
    {
        self.environment = None;
        self.difficulty = DifficultyFilter::Any;
        self.map = None;
    }

    /// Whether a combat with these facts passes.
    pub fn matches(&self, environment: Option<&str>, difficulty: Option<Difficulty>, base_name: &str) -> (r:
        bool)
        ensures
            r == filter_matches(self@, crate::entity::opt_view(environment), difficulty, base_name@),
    {
        if let Some(wanted) = &self.environment {
            match environment {
                Some(e) => {
                    if !str_eq(e, wanted.as_str()) {
                        return false;
                    }
                },
                None => {
                    return false;
                },
            }
        }
        if let Some(wanted) = &self.map {
            if !str_eq(base_name, wanted.as_str()) {
                return false;
            }
        }
        self.difficulty.matches(difficulty)
    }

    fn matches_entry(&self, e: &CombatEntry) -> (r: bool)
        ensures
            r == entry_matches(self@, *e),
    {
        let env: Option<&str> = match &e.environment {
            Some(s) => Some(s.as_str()),
            None => None,
        };
        self.matches(env, e.difficulty, e.base_name.as_str())
    }

    fn without(&self, dim: Dimension) -> (r: CombatFilter)
        ensures
            r@ == without(self@, dim),
    {
        match dim {
            Dimension::Environment => CombatFilter {
                environment: None,
                difficulty: self.difficulty,
                map: clone_opt_str(&self.map),
            },
            Dimension::Difficulty => CombatFilter {
                environment: clone_opt_str(&self.environment),
                difficulty: DifficultyFilter::Any,
                map: clone_opt_str(&self.map),
            },
            Dimension::MapName => CombatFilter {
                environment: clone_opt_str(&self.environment),
                difficulty: self.difficulty,
                map: None,
            },
        }
    }

    /// What the menu of `dim` may offer: what the combats passing the other
    /// two parts have.
    pub fn options(&self, combats: &Vec<CombatEntry>, dim: Dimension) -> (r: Options)
        ensures
            strictly_sorted(views(r.environments@)),
            strictly_sorted(views(r.maps@)),
            forall|e: Seq<char>| #[trigger] views(r.environments@).contains(e) <==> env_list(
                without(self@, dim),
                combats@,
            ).contains(e),
            forall|m: Seq<char>| #[trigger] views(r.maps@).contains(m) <==> map_list(
                without(self@, dim),
                combats@,
            ).contains(m),
            r.difficulties@ == diff_list(without(self@, dim), combats@),
    {
        let w = self.without(dim);
        let mut envs: Vec<String> = Vec::new();
        let mut maps: Vec<String> = Vec::new();
        let mut diffs: Vec<Option<Difficulty>> = Vec::new();
        for i in 0..combats.len()
            invariant
                w@ == without(self@, dim),
                views(envs@) == env_list(w@, combats@.take(i as int)),
                views(maps@) == map_list(w@, combats@.take(i as int)),
                diffs@ == diff_list(w@, combats@.take(i as int)),
        {
            let ghost pre = combats@.take(i as int);
            let ghost post = combats@.take(i + 1);
            assert(post.drop_last() =~= pre);
            let c = &combats[i];
            if w.matches_entry(c) {
                let ghost old_envs = views(envs@);
                let ghost old_maps = views(maps@);
                if let Some(e) = &c.environment {
                    envs.push(e.clone());
                    assert(views(envs@) =~= old_envs.push(e@));
                }
                maps.push(c.base_name.clone());
                assert(views(maps@) =~= old_maps.push(c.base_name@));
                diffs.push(c.difficulty);
            }
        }
        assert(combats@.take(combats@.len() as int) =~= combats@);
        Options { environments: sorted_distinct(envs), maps: sorted_distinct(maps), difficulties: diffs }
    }
}

impl Default for CombatFilter {
    /// The filter that lets everything through.
    fn default() -> (r: CombatFilter)
        ensures
            r@.environment is None && r@.map is None && r@.difficulty == DifficultyFilter::Any,
    {
        CombatFilter::new()
    }
}

/// The environments of the combats of `s` that pass `f`, in order.
pub open spec fn env_list(f: FilterView, s: Seq<CombatEntry>) -> Seq<Seq<char>>
    decreases s.len(),
{
    if s.len() == 0 {
        seq![]
    } else {
        let rest = env_list(f, s.drop_last());
        if entry_matches(f, s.last()) && s.last().environment is Some {
            rest.push(s.last().environment->0@)
        } else {
            rest
        }
    }
}

/// The base names of the combats of `s` that pass `f`, in order.
pub open spec fn map_list(f: FilterView, s: Seq<CombatEntry>) -> Seq<Seq<char>>
    decreases s.len(),
{
    if s.len() == 0 {
        seq![]
    } else {
        let rest = map_list(f, s.drop_last());
        if entry_matches(f, s.last()) {
            rest.push(s.last().base_name@)
        } else {
            rest
        }
    }
}

/// The difficulties of the combats of `s` that pass `f`, in order.
pub open spec fn diff_list(f: FilterView, s: Seq<CombatEntry>) -> Seq<Option<Difficulty>>
    decreases s.len(),
{
    if s.len() == 0 {
        seq![]
    } else {
        let rest = diff_list(f, s.drop_last());
        if entry_matches(f, s.last()) {
            rest.push(s.last().difficulty)
        } else {
            rest
        }
    }
}

pub proof fn lemma_env_list(f: FilterView, s: Seq<CombatEntry>, e: Seq<char>)
    ensures
        env_list(f, s).contains(e) <==> environment_option(f, s, e),
    decreases s.len(),
{
    if s.len() > 0 {
        let t = s.drop_last();
        lemma_env_list(f, t, e);
        let l = env_list(f, s);
        let lt = env_list(f, t);
        if l.contains(e) {
            let k = choose|k: int| 0 <= k < l.len() && l[k] == e;
            if k < lt.len() {
                assert(lt[k] == l[k]);
                assert(lt.contains(e));
                let j = choose|j: int| 0 <= j < t.len() && entry_matches(f, #[trigger] t[j]) && opt_string_view(t[j].environment) == Some(e);
                assert(s[j] == t[j]);
            } else {
                assert(s[s.len() - 1] == s.last());
            }
        }
        if environment_option(f, s, e) {
            let j = choose|j: int| 0 <= j < s.len() && entry_matches(f, #[trigger] s[j]) && opt_string_view(s[j].environment) == Some(e);
            if j < s.len() - 1 {
                assert(t[j] == s[j]);
                assert(environment_option(f, t, e));
                let k = choose|k: int| 0 <= k < lt.len() && lt[k] == e;
                assert(l[k] == lt[k]);
            } else {
                assert(l[l.len() - 1] == e);
            }
        }
    }
}

pub proof fn lemma_map_list(f: FilterView, s: Seq<CombatEntry>, m: Seq<char>)
    ensures
        map_list(f, s).contains(m) <==> map_option(f, s, m),
    decreases s.len(),
{
    if s.len() > 0 {
        let t = s.drop_last();
        lemma_map_list(f, t, m);
        let l = map_list(f, s);
        let lt = map_list(f, t);
        if l.contains(m) {
            let k = choose|k: int| 0 <= k < l.len() && l[k] == m;
            if k < lt.len() {
                assert(lt[k] == l[k]);
                assert(lt.contains(m));
                let j = choose|j: int| 0 <= j < t.len() && entry_matches(f, #[trigger] t[j]) && t[j].base_name@ == m;
                assert(s[j] == t[j]);
            } else {
                assert(s[s.len() - 1] == s.last());
            }
        }
        if map_option(f, s, m) {
            let j = choose|j: int| 0 <= j < s.len() && entry_matches(f, #[trigger] s[j]) && s[j].base_name@ == m;
            if j < s.len() - 1 {
                assert(t[j] == s[j]);
                assert(map_option(f, t, m));
                let k = choose|k: int| 0 <= k < lt.len() && lt[k] == m;
                assert(l[k] == lt[k]);
            } else {
                assert(l[l.len() - 1] == m);
            }
        }
    }
}

/// Some difficulty of `l` passes `d`.
pub open spec fn any_difficulty_passes(l: Seq<Option<Difficulty>>, d: DifficultyFilter) -> bool {
    exists|k: int| 0 <= k < l.len() && difficulty_matches(d, #[trigger] l[k])
}

pub proof fn lemma_diff_list(f: FilterView, s: Seq<CombatEntry>, d: DifficultyFilter)
    ensures
        any_difficulty_passes(diff_list(f, s), d) <==> difficulty_option(f, s, d),
    decreases s.len(),
{
    if s.len() > 0 {
        let t = s.drop_last();
        lemma_diff_list(f, t, d);
        let l = diff_list(f, s);
        let lt = diff_list(f, t);
        if any_difficulty_passes(l, d) {
            let k = choose|k: int| 0 <= k < l.len() && difficulty_matches(d, #[trigger] l[k]);
            if k < lt.len() {
                assert(lt[k] == l[k]);
                let j = choose|j: int| 0 <= j < t.len() && entry_matches(f, #[trigger] t[j]) && difficulty_matches(d, t[j].difficulty);
                assert(s[j] == t[j]);
            } else {
                assert(s[s.len() - 1] == s.last());
            }
        }
        if difficulty_option(f, s, d) {
            let j = choose|j: int| 0 <= j < s.len() && entry_matches(f, #[trigger] s[j]) && difficulty_matches(d, s[j].difficulty);
            if j < s.len() - 1 {
                assert(t[j] == s[j]);
                assert(difficulty_option(f, t, d));
                let k = choose|k: int| 0 <= k < lt.len() && difficulty_matches(d, #[trigger] lt[k]);
                assert(l[k] == lt[k]);
            } else {
                assert(difficulty_matches(d, l[lt.len() as int]));
            }
        }
    }
}


/// The filter with every choice the others have made impossible given up:
/// first the environment, then the map, then the difficulty, each judged
/// against what the (by then updated) other parts let through.
pub open spec fn dropped(f: FilterView, combats: Seq<CombatEntry>) -> FilterView {
    let f1 = match f.environment {
        Some(e) => if !environment_option(without(f, Dimension::Environment), combats, e) {
            FilterView { environment: None, ..f }
        } else {
            f
        },
        None => f,
    };
    let f2 = match f1.map {
        Some(m) => if !map_option(without(f1, Dimension::MapName), combats, m) {
            FilterView { map: None, ..f1 }
        } else {
            f1
        },
        None => f1,
    };
    if f2.difficulty != DifficultyFilter::Any && !difficulty_option(
        without(f2, Dimension::Difficulty),
        combats,
        f2.difficulty,
    ) {
        FilterView { difficulty: DifficultyFilter::Any, ..f2 }
    } else {
        f2
    }
}

fn list_has(v: &Vec<String>, s: &str) -> (r: bool)
    ensures
        r == views(v@).contains(s@),
{
    let mut i: usize = 0;
    while i < v.len()
        invariant
            i <= v@.len(),
            forall|k: int| 0 <= k < i ==> v@[k]@ != s@,
        decreases v.len() - i,
    {
        if str_eq(v[i].as_str(), s) {
            assert(views(v@)[i as int] == s@);
            return true;
        }
        i += 1;
    }
    assert forall|k: int| 0 <= k < views(v@).len() implies views(v@)[k] != s@ by {
        assert(views(v@)[k] == v@[k]@);
    }
    false
}

fn any_passes(l: &Vec<Option<Difficulty>>, d: DifficultyFilter) -> (r: bool)
    ensures
        r == any_difficulty_passes(l@, d),
{
    let mut i: usize = 0;
    while i < l.len()
        invariant
            i <= l@.len(),
            forall|k: int| 0 <= k < i ==> !difficulty_matches(d, #[trigger] l@[k]),
        decreases l.len() - i,
    {
        if d.matches(l[i]) {
            return true;
        }
        i += 1;
    }
    false
}

impl CombatFilter {
    /// Gives up a choice that the other parts have made impossible, so the
    /// list never ends up empty through a combination nothing matches.
    pub fn drop_impossible_choices(&mut self, combats: &Vec<CombatEntry>)
        ensures
            final(self)@ == dropped(old(self)@, combats@),
    {
        let ghost f0 = self@;
        let drop_env = match &self.environment {
            Some(e) => {
                let o = self.options(combats, Dimension::Environment);
                proof {
                    lemma_env_list(without(f0, Dimension::Environment), combats@, e@);
                }
                !list_has(&o.environments, e.as_str())
            },
            None => false,
        };
        if drop_env {
            self.environment = None;
        }
        let ghost f1 = self@;
        let drop_map = match &self.map {
            Some(m) => {
                let o = self.options(combats, Dimension::MapName);
                proof {
                    lemma_map_list(without(f1, Dimension::MapName), combats@, m@);
                }
                !list_has(&o.maps, m.as_str())
            },
            None => false,
        };
        if drop_map {
            self.map = None;
        }
        let ghost f2 = self@;
        if self.difficulty != DifficultyFilter::Any {
            let o = self.options(combats, Dimension::Difficulty);
            proof {
                lemma_diff_list(without(f2, Dimension::Difficulty), combats@, self.difficulty);
            }
            if !any_passes(&o.difficulties, self.difficulty) {
                self.difficulty = DifficultyFilter::Any;
            }
        }
        assert(self@ == dropped(f0, combats@));
    }
}

/// Whether the combat at `i` of the list passes `f`. A position past the
/// list is taken as a combat of which nothing is known.
pub open spec fn passes_at(f: FilterView, combats: Seq<CombatEntry>, i: int) -> bool {
    if 0 <= i < combats.len() {
        entry_matches(f, combats[i])
    } else {
        filter_matches(f, None, None, seq![])
    }
}

impl CombatFilter {
    /// After the filter changed, the combat to move to: none when the combat
    /// shown (`selected`) still passes, so that it stays, or when no combat
    /// passes; else the newest one that passes.
    pub fn follow_filter_change(&self, combats: &Vec<CombatEntry>, selected: Option<usize>) -> (r: Option<
        usize,
    >)
        ensures
            (selected matches Some(i) && passes_at(self@, combats@, i as int)) ==> r is None,
            !(selected matches Some(i) && passes_at(self@, combats@, i as int)) ==> match r {
                None => !some_match(self@, combats@),
                Some(i) => i < combats@.len() && entry_matches(self@, combats@[i as int]) && forall|j: int|
                    i < j < combats@.len() ==> !entry_matches(self@, #[trigger] combats@[j]),
            },
    {
        proof {
            reveal_strlit("");
            assert(""@ =~= Seq::<char>::empty());
        }
        if let Some(i) = selected {
            let passes = if i < combats.len() {
                self.matches_entry(&combats[i])
            } else {
                self.matches(None, None, "")
            };
            if passes {
                return None;
            }
        }
        let mut k: usize = combats.len();
        while k > 0
            invariant
                k <= combats@.len(),
                forall|j: int| k <= j < combats@.len() ==> !entry_matches(self@, #[trigger] combats@[j]),
                !(selected matches Some(i) && passes_at(self@, combats@, i as int)),
            decreases k,
        {
            k -= 1;
            if self.matches_entry(&combats[k]) {
                return Some(k);
            }
        }
        None
    }
}

/// Giving up the impossible choices never empties a non-empty list: some
/// combat passes the filter afterwards.
pub proof fn lemma_dropped_filter_keeps_a_combat(f: FilterView, combats: Seq<CombatEntry>)
    requires
        combats.len() > 0,
    ensures
        some_match(dropped(f, combats), combats),
{
    let f1 = match f.environment {
        Some(e) => if !environment_option(without(f, Dimension::Environment), combats, e) {
            FilterView { environment: None, ..f }
        } else {
            f
        },
        None => f,
    };
    let f2 = match f1.map {
        Some(m) => if !map_option(without(f1, Dimension::MapName), combats, m) {
            FilterView { map: None, ..f1 }
        } else {
            f1
        },
        None => f1,
    };
    let f3 = dropped(f, combats);
    if f3.difficulty != DifficultyFilter::Any {
        let j = choose|j: int|
            0 <= j < combats.len() && entry_matches(without(f2, Dimension::Difficulty), #[trigger] combats[j])
                && difficulty_matches(f2.difficulty, combats[j].difficulty);
        assert(entry_matches(f3, combats[j]));
    } else if f2.map is Some {
        let m = f2.map->0;
        let j = choose|j: int|
            0 <= j < combats.len() && entry_matches(without(f1, Dimension::MapName), #[trigger] combats[j])
                && combats[j].base_name@ == m;
        assert(entry_matches(f3, combats[j]));
    } else if f1.environment is Some {
        let e = f1.environment->0;
        let j = choose|j: int|
            0 <= j < combats.len() && entry_matches(without(f, Dimension::Environment), #[trigger] combats[j])
                && opt_string_view(combats[j].environment) == Some(e);
        assert(entry_matches(f3, combats[j]));
    } else {
        assert(entry_matches(f3, combats[0]));
    }
}

/// A menu is not narrowed by its own choice: the map menu offers the base
/// name of every combat that passes the environment and difficulty parts,
/// whatever map is picked; the environment menu the environment of every
/// combat that passes the difficulty and map parts; and the difficulty menu
/// the difficulty of every combat that passes the environment and map parts.
pub proof fn lemma_menus_ignore_their_own_choice(f: FilterView, combats: Seq<CombatEntry>)
    ensures
        forall|m: Seq<char>|
            #[trigger] map_list(without(f, Dimension::MapName), combats).contains(m) <==> exists|i: int|
                0 <= i < combats.len() && combats[i].base_name@ == m && (f.environment is None || opt_string_view(
                    (#[trigger] combats[i]).environment,
                ) == f.environment) && difficulty_matches(f.difficulty, combats[i].difficulty),
        forall|e: Seq<char>|
            #[trigger] env_list(without(f, Dimension::Environment), combats).contains(e) <==> exists|i: int|
                0 <= i < combats.len() && opt_string_view((#[trigger] combats[i]).environment) == Some(e) && (
                f.map is None || combats[i].base_name@ == f.map->0) && difficulty_matches(
                    f.difficulty,
                    combats[i].difficulty,
                ),
        forall|d: DifficultyFilter|
            #[trigger] any_difficulty_passes(diff_list(without(f, Dimension::Difficulty), combats), d) <==> exists|i: int|
                0 <= i < combats.len() && difficulty_matches(d, (#[trigger] combats[i]).difficulty) && (
                f.environment is None || opt_string_view(combats[i].environment) == f.environment) && (f.map is None
                || combats[i].base_name@ == f.map->0),
{
    assert forall|m: Seq<char>|
        #[trigger] map_list(without(f, Dimension::MapName), combats).contains(m) <==> exists|i: int|
            0 <= i < combats.len() && combats[i].base_name@ == m && (f.environment is None || opt_string_view(
                (#[trigger] combats[i]).environment,
            ) == f.environment) && difficulty_matches(f.difficulty, combats[i].difficulty) by {
        lemma_map_list(without(f, Dimension::MapName), combats, m);
    }
    assert forall|e: Seq<char>|
        #[trigger] env_list(without(f, Dimension::Environment), combats).contains(e) <==> exists|i: int|
            0 <= i < combats.len() && opt_string_view((#[trigger] combats[i]).environment) == Some(e) && (
            f.map is None || combats[i].base_name@ == f.map->0) && difficulty_matches(
                f.difficulty,
                combats[i].difficulty,
            ) by {
        lemma_env_list(without(f, Dimension::Environment), combats, e);
    }
    assert forall|d: DifficultyFilter|
        #[trigger] any_difficulty_passes(diff_list(without(f, Dimension::Difficulty), combats), d) <==> exists|i: int|
            0 <= i < combats.len() && difficulty_matches(d, (#[trigger] combats[i]).difficulty) && (
            f.environment is None || opt_string_view(combats[i].environment) == f.environment) && (f.map is None
            || combats[i].base_name@ == f.map->0) by {
        lemma_diff_list(without(f, Dimension::Difficulty), combats, d);
    }
}

} // verus!
