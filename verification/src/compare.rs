//! Picking combats to compare: the metrics a comparison can show, the search
//! box, the start-time window, and the selection.
use vstd::prelude::*;
use crate::text::{views, trim, trim_str, string_of, lowercase, contains, to_lowercase, str_contains};
use crate::filter::{CombatEntry, CombatFilter, DifficultyFilter, entry_matches};
use crate::timefmt::{parsed_time, parse_time, MINUTE_LAYOUT, format_time};

verus! {

/// Past this many combats the chart's line colours start over.
pub const COLORS_RUN_OUT_AT: usize = 8;

/// Past this many combats a comparison is worth a word of warning.
pub const MANY_COMBATS: usize = 50;

/// A metric a compare column can show.
#[derive(Debug, Clone, Copy, PartialEq, Eq, Structural)]
pub enum CompareMetric {
    Dps,
    TotalDamage,
    DamagePercentage,
    Resistance,
    Critical,
    Flanking,
    Accuracy,
    MaxOneHit,
    AverageHit,
    Hits,
    HitsPerSecond,
    BaseDps,
}

pub open spec fn metric_label(m: CompareMetric) -> Seq<char> {
    match m {
        CompareMetric::Dps => "DPS"@,
        CompareMetric::TotalDamage => "Total Damage"@,
        CompareMetric::DamagePercentage => "Damage %"@,
        CompareMetric::Resistance => "Resistance %"@,
        CompareMetric::Critical => "Critical %"@,
        CompareMetric::Flanking => "Flanking %"@,
        CompareMetric::Accuracy => "Accuracy %"@,
        CompareMetric::MaxOneHit => "Max One-Hit"@,
        CompareMetric::AverageHit => "Average Hit"@,
        CompareMetric::Hits => "Hits"@,
        CompareMetric::HitsPerSecond => "Hits/s"@,
        CompareMetric::BaseDps => "Base DPS"@,
    }
}

pub open spec fn metric_precision(m: CompareMetric) -> usize {
    match m {
        CompareMetric::DamagePercentage | CompareMetric::Resistance | CompareMetric::Critical
        | CompareMetric::Flanking | CompareMetric::Accuracy => 2,
        CompareMetric::HitsPerSecond => 1,
        _ => 0,
    }
}

impl CompareMetric {
    /// Every metric that can be picked as a column, in menu order.
    pub fn all() -> (r: Vec<CompareMetric>)
        ensures
            r@ == seq![
                CompareMetric::Dps,
                CompareMetric::TotalDamage,
                CompareMetric::DamagePercentage,
                CompareMetric::Resistance,
                CompareMetric::Critical,
                CompareMetric::Flanking,
                CompareMetric::Accuracy,
                CompareMetric::MaxOneHit,
                CompareMetric::AverageHit,
                CompareMetric::Hits,
                CompareMetric::HitsPerSecond,
                CompareMetric::BaseDps,
            ],
    {
        let mut r: Vec<CompareMetric> = Vec::new();
        r.push(CompareMetric::Dps);
        r.push(CompareMetric::TotalDamage);
        r.push(CompareMetric::DamagePercentage);
        r.push(CompareMetric::Resistance);
        r.push(CompareMetric::Critical);
        r.push(CompareMetric::Flanking);
        r.push(CompareMetric::Accuracy);
        r.push(CompareMetric::MaxOneHit);
        r.push(CompareMetric::AverageHit);
        r.push(CompareMetric::Hits);
        r.push(CompareMetric::HitsPerSecond);
        r.push(CompareMetric::BaseDps);
        r
    }

    /// The column heading.
    pub fn label(self) -> (r: &'static str)
        ensures
            r@ == metric_label(self),
    {
        match self {
            CompareMetric::Dps => "DPS",
            CompareMetric::TotalDamage => "Total Damage",
            CompareMetric::DamagePercentage => "Damage %",
            CompareMetric::Resistance => "Resistance %",
            CompareMetric::Critical => "Critical %",
            CompareMetric::Flanking => "Flanking %",
            CompareMetric::Accuracy => "Accuracy %",
            CompareMetric::MaxOneHit => "Max One-Hit",
            CompareMetric::AverageHit => "Average Hit",
            CompareMetric::Hits => "Hits",
            CompareMetric::HitsPerSecond => "Hits/s",
            CompareMetric::BaseDps => "Base DPS",
        }
    }

    /// How many decimals the metric is shown with.
    pub fn precision(self) -> (r: usize)
        ensures
            r == metric_precision(self),
    {
        match self {
            CompareMetric::DamagePercentage | CompareMetric::Resistance | CompareMetric::Critical
            | CompareMetric::Flanking | CompareMetric::Accuracy => 2,
            CompareMetric::HitsPerSecond => 1,
            _ => 0,
        }
    }

    /// Whether a higher value is better; for resistance lower is.
    pub fn higher_is_better(self) -> (r: bool)
        ensures
            r == (self != CompareMetric::Resistance),
    {
        !matches!(self, CompareMetric::Resistance)
    }
}

/// What is worth saying about a selection of `selected` combats.
pub open spec fn hint_for(selected: usize) -> Option<Seq<char>> {
    if selected > MANY_COMBATS {
        Some(
            "— a comparison this wide takes a moment to build, and reads best with the averages turned on; the chart's line colours start over past eight"@,
        )
    } else if selected > COLORS_RUN_OUT_AT {
        Some("— past eight combats the chart's line colours start over"@)
    } else {
        None
    }
}

/// What is worth saying about a selection this size, if anything.
pub fn selection_hint(selected: usize) -> (r: Option<&'static str>)
    ensures
        crate::entity::opt_view(r) == hint_for(selected),
{
    if selected > MANY_COMBATS {
        Some(
            "— a comparison this wide takes a moment to build, and reads best with the averages turned on; the chart's line colours start over past eight",
        )
    } else if selected > COLORS_RUN_OUT_AT {
        Some("— past eight combats the chart's line colours start over")
    } else {
        None
    }
}

/// A note as it reads appended to a sentence: after a dash, or nothing.
pub open spec fn note_suffix_of(note: Seq<char>) -> Seq<char> {
    if note.len() == 0 {
        seq![]
    } else {
        " — "@ + note
    }
}

/// [`note_suffix_of`], built.
pub fn note_suffix(note: &str) -> (r: String)
    ensures
        r@ == note_suffix_of(note@),
{
    if note.is_empty() {
        String::new()
    } else {
        let mut out = crate::text::chars_of(" — ");
        crate::text::extend_str(&mut out, note);
        string_of(&out)
    }
}

/// The label a combat's line is charted under: its slot number (counted
/// from one), and its note after a dash where it has one.
pub open spec fn chart_label_of(slot: usize, note: Seq<char>) -> Seq<char> {
    crate::text::decimal((slot + 1) as nat) + note_suffix_of(note)
}

/// [`chart_label_of`], built.
pub fn chart_label(slot: usize, note: &str) -> (r: String)
    requires
        slot < usize::MAX,
    ensures
        r@ == chart_label_of(slot, note@),
{
    let n: u64 = (slot + 1) as u64;
    let mut out = crate::text::u64_to_decimal(n);
    let suffix = note_suffix(note);
    crate::text::extend_str(&mut out, suffix.as_str());
    string_of(&out)
}

/// The pieces of a label, each with whether it is drawn in the colour its
/// combat's line has on the chart.
pub open spec fn part_views(p: Seq<(String, bool)>) -> Seq<(Seq<char>, bool)> {
    p.map_values(|x: (String, bool)| (x.0@, x.1))
}

/// A column header of the comparison table: the metric name on a line of its
/// own, in the ordinary colour since it stands for the whole group of
/// columns; the combat's number under it, and the note (when the comparison
/// shows notes) on a third line, both in the combat's colour.
pub open spec fn header_parts_of(metric: Seq<char>, number: Seq<char>, note: Option<Seq<char>>) -> Seq<
    (Seq<char>, bool),
> {
    let head = seq![(metric + "\n"@, false), (number, true)];
    match note {
        Some(n) => head.push(("\n"@ + n, true)),
        None => head,
    }
}

/// [`header_parts_of`], built.
pub fn header_parts(metric: &str, number: &str, note: Option<&str>) -> (r: Vec<(String, bool)>)
    ensures
        part_views(r@) == header_parts_of(metric@, number@, crate::entity::opt_view(note)),
{
    let mut first = crate::text::chars_of(metric);
    crate::text::extend_str(&mut first, "\n");
    let mut r: Vec<(String, bool)> = Vec::new();
    r.push((string_of(&first), false));
    r.push((crate::text::owned(number), true));
    if let Some(n) = note {
        let mut last = crate::text::chars_of("\n");
        crate::text::extend_str(&mut last, n);
        r.push((string_of(&last), true));
    }
    assert(part_views(r@) =~= header_parts_of(metric@, number@, crate::entity::opt_view(note)));
    r
}

/// How many lines of text the table reserves for its header: two, and a
/// third when the notes are shown.
pub open spec fn header_lines_of(with_notes: bool) -> nat {
    if with_notes {
        3
    } else {
        2
    }
}

/// [`header_lines_of`], computed.
pub fn header_lines(with_notes: bool) -> (r: u32)
    ensures
        r == header_lines_of(with_notes),
{
    if with_notes {
        3
    } else {
        2
    }
}

/// The text of a label, its pieces put together.
pub open spec fn parts_text(p: Seq<(Seq<char>, bool)>) -> Seq<char>
    decreases p.len(),
{
    if p.len() == 0 {
        seq![]
    } else {
        parts_text(p.drop_last()) + p.last().0
    }
}

/// How many line breaks `s` holds.
pub open spec fn newlines(s: Seq<char>) -> nat
    decreases s.len(),
{
    if s.len() == 0 {
        0
    } else {
        newlines(s.drop_last()) + if s.last() == '\n' {
            1nat
        } else {
            0nat
        }
    }
}

proof fn lemma_newlines_concat(a: Seq<char>, b: Seq<char>)
    ensures
        newlines(a + b) == newlines(a) + newlines(b),
    decreases b.len(),
{
    if b.len() > 0 {
        lemma_newlines_concat(a, b.drop_last());
        assert((a + b).drop_last() =~= a + b.drop_last());
    }
}

proof fn lemma_no_newlines(s: Seq<char>)
    requires
        !s.contains('\n'),
    ensures
        newlines(s) == 0,
    decreases s.len(),
{
    if s.len() > 0 {
        assert(!s.drop_last().contains('\n')) by {
            if s.drop_last().contains('\n') {
                let k = choose|k: int| 0 <= k < s.drop_last().len() && s.drop_last()[k] == '\n';
                assert(s[k] == '\n');
            }
        }
        lemma_no_newlines(s.drop_last());
        assert(s[s.len() - 1] != '\n');
    }
}

/// A column header is drawn on exactly the lines the table reserves for it,
/// as long as the metric name, the number and the note are one line each.
pub proof fn lemma_header_fits(metric: Seq<char>, number: Seq<char>, note: Option<Seq<char>>)
    requires
        !metric.contains('\n'),
        !number.contains('\n'),
        note matches Some(n) ==> !n.contains('\n'),
    ensures
        newlines(parts_text(header_parts_of(metric, number, note))) + 1 == header_lines_of(note is Some),
{
    reveal_strlit("\n");
    let nl: Seq<char> = "\n"@;
    assert(nl =~= seq!['\n']);
    assert(newlines(nl) == 1) by {
        assert(nl.drop_last() =~= Seq::<char>::empty());
        assert(newlines(Seq::<char>::empty()) == 0);
    }
    lemma_no_newlines(metric);
    lemma_no_newlines(number);
    lemma_newlines_concat(metric, nl);
    let p = header_parts_of(metric, number, note);
    let two = seq![(metric + nl, false), (number, true)];
    let one = two.drop_last();
    assert(one.drop_last() =~= Seq::<(Seq<char>, bool)>::empty());
    assert(parts_text(one.drop_last()) == Seq::<char>::empty());
    assert(parts_text(one) =~= metric + nl);
    lemma_newlines_concat(metric + nl, number);
    match note {
        Some(n) => {
            lemma_no_newlines(n);
            lemma_newlines_concat(nl, n);
            assert(p.drop_last() =~= two);
            lemma_newlines_concat(parts_text(two), nl + n);
        },
        None => {},
    }
}

/// A line of the legend above the table: the combat's number (counted from
/// one) and a colon, then what the program calls the combat, then the note
/// after a dash where there is one. The number and the note are in the
/// combat's colour, the identifier between them is not.
pub open spec fn legend_parts_of(slot: usize, identifier: Seq<char>, note: Seq<char>) -> Seq<(Seq<char>, bool)> {
    let head = seq![(crate::text::decimal((slot + 1) as nat) + ":"@, true), (" "@ + identifier, false)];
    if note.len() == 0 {
        head
    } else {
        head.push((" — "@ + note, true))
    }
}

/// [`legend_parts_of`], built.
pub fn legend_parts(slot: usize, identifier: &str, note: &str) -> (r: Vec<(String, bool)>)
    requires
        slot < usize::MAX,
    ensures
        part_views(r@) == legend_parts_of(slot, identifier@, note@),
{
    let n: u64 = (slot + 1) as u64;
    let mut number = crate::text::u64_to_decimal(n);
    crate::text::extend_str(&mut number, ":");
    let mut middle = crate::text::chars_of(" ");
    crate::text::extend_str(&mut middle, identifier);
    let mut r: Vec<(String, bool)> = Vec::new();
    r.push((string_of(&number), true));
    r.push((string_of(&middle), false));
    if !note.is_empty() {
        let mut last = crate::text::chars_of(" — ");
        crate::text::extend_str(&mut last, note);
        r.push((string_of(&last), true));
    }
    assert(part_views(r@) =~= legend_parts_of(slot, identifier@, note@));
    r
}

/// A window of start times, typed to the minute. An empty or unparseable end
/// bounds nothing.
pub struct DateRange {
    pub from: String,
    pub to: String,
}

/// The time an end of the window names.
pub open spec fn window_end(text: Seq<char>) -> Option<i64> {
    parsed_time(trim(text), MINUTE_LAYOUT@)
}

/// Whether a combat starting at `start` is inside the window `from`..`to`;
/// the upper end covers its whole minute.
pub open spec fn in_window(from: Seq<char>, to: Seq<char>, start: i64) -> bool {
    (window_end(from) matches Some(f) ==> start >= f) && (window_end(to) matches Some(t) ==> start
        < t + 60000)
}

fn parse_end(text: &str) -> (r: Option<i64>)
    ensures
        r == window_end(text@),
{
    let t = trim_str(text);
    let s = string_of(&t);
    parse_time(s.as_str(), MINUTE_LAYOUT)
}

impl DateRange {
    pub fn new() -> (r: DateRange)
        ensures
            r.from@.len() == 0 && r.to@.len() == 0,
    {
        DateRange { from: String::new(), to: String::new() }
    }

    /// Whether the window excludes anything.
    pub fn is_active(&self) -> (r: bool)
        ensures
            r == (window_end(self.from@) is Some || window_end(self.to@) is Some),
    {
        parse_end(self.from.as_str()).is_some() || parse_end(self.to.as_str()).is_some()
    }

    /// Gives up both ends.
    pub fn clear(&mut self)
        ensures
            final(self).from@.len() == 0 && final(self).to@.len() == 0,
    {
        self.from = String::new();
        self.to = String::new();
    }

    /// Types both ends at once.
    pub fn set(&mut self, from: &str, to: &str)
        ensures
            final(self).from@ == from@ && final(self).to@ == to@,
    {
        self.from = from.to_owned();
        self.to = to.to_owned();
    }

    /// Whether a combat starting at `start` falls inside the window.
    pub fn matches(&self, start: i64) -> (r: bool)
        ensures
            r == in_window(self.from@, self.to@, start),
    {
        if let Some(from) = parse_end(self.from.as_str()) {
            if start < from {
                return false;
            }
        }
        if let Some(to) = parse_end(self.to.as_str()) {
            if (start as i128) >= (to as i128) + 60000 {
                return false;
            }
        }
        true
    }

    /// A window reaching `hours` back from the newest combat, open at the
    /// top.
    pub fn preset(&mut self, newest: i64, hours: i64)
        requires
            i64::MIN <= newest - hours * 3_600_000 <= i64::MAX,
        ensures
            final(self).from@ == crate::combat::time_text(
                (newest - hours * 3_600_000) as i64,
                MINUTE_LAYOUT@,
            ),
            final(self).to@.len() == 0,
    {
        let start: i64 = ((newest as i128) - (hours as i128) * 3_600_000) as i64;
        proof {
            reveal_strlit("%Y-%m-%d %H:%M");
        }
        self.from = match format_time(start, MINUTE_LAYOUT) {
            Some(t) => t,
            None => String::new(),
        };
        self.to = String::new();
    }
}

impl Default for DateRange {
    /// The window that bounds nothing.
    fn default() -> (r: DateRange)
        ensures
            r.from@.len() == 0 && r.to@.len() == 0,
    {
        DateRange::new()
    }
}

/// Whether the search text `filter` finds a combat by its identifier or its
/// note, ignoring case; empty search text finds everything.
pub open spec fn search_finds(filter: Seq<char>, identifier: Seq<char>, note: Seq<char>) -> bool {
    let needle = lowercase(trim(filter));
    needle.len() == 0 || contains(lowercase(identifier), needle) || contains(lowercase(note), needle)
}

/// The compare view's choice of combats.
pub struct CompareView {
    pub open: bool,
    /// The ticked combats, by position in the list.
    pub selected: Vec<usize>,
    pub name_filter: String,
    pub filter: CombatFilter,
    pub range: DateRange,
}

/// `s` without any `x`.
pub open spec fn removed(s: Seq<usize>, x: usize) -> Seq<usize>
    decreases s.len(),
{
    if s.len() == 0 {
        seq![]
    } else if s.last() == x {
        removed(s.drop_last(), x)
    } else {
        removed(s.drop_last(), x).push(s.last())
    }
}

/// No position is ticked twice.
pub open spec fn distinct(s: Seq<usize>) -> bool {
    forall|i: int, j: int| 0 <= i < j < s.len() ==> s[i] != s[j]
}

/// Whether combat `i` passes every filter of the view `v`.
pub open spec fn view_matches(
    v: CompareView,
    identifier: Seq<char>,
    note: Seq<char>,
    entry: CombatEntry,
    start: Option<i64>,
) -> bool {
    search_finds(v.name_filter@, identifier, note) && (start matches Some(t) ==> in_window(
        v.range.from@,
        v.range.to@,
        t,
    )) && entry_matches(v.filter@, entry)
}

/// Whether combat `i` of the list passes every filter of `v`.
pub open spec fn matches_at(
    v: CompareView,
    combats: Seq<String>,
    notes: Seq<String>,
    entries: Seq<CombatEntry>,
    starts: Seq<i64>,
    i: int,
) -> bool {
    view_matches(
        v,
        combats[i]@,
        notes[i]@,
        entries[i],
        if i < starts.len() {
            Some(starts[i])
        } else {
            None
        },
    )
}

/// The list the view shows of combats `0..k`, newest first: a combat that
/// passes, or is ticked, with whether it passes.
pub open spec fn visible_upto(
    v: CompareView,
    combats: Seq<String>,
    notes: Seq<String>,
    entries: Seq<CombatEntry>,
    starts: Seq<i64>,
    k: int,
) -> Seq<(usize, bool)>
    decreases k,
{
    if k <= 0 {
        seq![]
    } else {
        let i = k - 1;
        let m = matches_at(v, combats, notes, entries, starts, i);
        let item = if m || v.selected@.contains(i as usize) {
            seq![(i as usize, m)]
        } else {
            seq![]
        };
        item + visible_upto(v, combats, notes, entries, starts, i)
    }
}

/// Combat `i` has an entry in the list `l`.
pub open spec fn listed(l: Seq<(usize, bool)>, i: int) -> bool {
    exists|a: int| 0 <= a < l.len() && l[a].0 == i
}

/// Combat `i` belongs in the list: it passes the filters or it is ticked.
pub open spec fn belongs(
    v: CompareView,
    combats: Seq<String>,
    notes: Seq<String>,
    entries: Seq<CombatEntry>,
    starts: Seq<i64>,
    i: int,
) -> bool {
    matches_at(v, combats, notes, entries, starts, i) || v.selected@.contains(i as usize)
}

/// The list of combats `0..k` holds, newest first and each once, every combat
/// that passes the filters and every ticked one, whatever the filters say;
/// each marked with whether it passes. A ticked combat can thus always be
/// seen, and unticked.
pub proof fn lemma_visible_list(
    v: CompareView,
    combats: Seq<String>,
    notes: Seq<String>,
    entries: Seq<CombatEntry>,
    starts: Seq<i64>,
    k: int,
)
    requires
        0 <= k <= combats.len(),
        k <= usize::MAX,
    ensures
        ({
            let l = visible_upto(v, combats, notes, entries, starts, k);
            &&& forall|a: int, b: int| 0 <= a < b < l.len() ==> #[trigger] l[a].0 > #[trigger] l[b].0
            &&& forall|a: int| 0 <= a < l.len() ==> (#[trigger] l[a]).0 < k && l[a].1 == matches_at(
                v,
                combats,
                notes,
                entries,
                starts,
                l[a].0 as int,
            )
            &&& forall|i: int| 0 <= i < k ==> (#[trigger] listed(l, i) <==> belongs(v, combats, notes, entries, starts, i))
        }),
    decreases k,
{
    if k > 0 {
        lemma_visible_list(v, combats, notes, entries, starts, k - 1);
        let rest = visible_upto(v, combats, notes, entries, starts, k - 1);
        let l = visible_upto(v, combats, notes, entries, starts, k);
        let i = k - 1;
        let m = matches_at(v, combats, notes, entries, starts, i);
        if m || v.selected@.contains(i as usize) {
            assert(l == seq![(i as usize, m)] + rest);
            assert forall|a: int| 1 <= a < l.len() implies l[a] == rest[a - 1] by {}
            assert(l[0].0 == i);
            assert(listed(l, i));
            assert forall|j: int| 0 <= j < i implies (#[trigger] listed(l, j) <==> listed(rest, j)) by {
                if listed(rest, j) {
                    let a = choose|a: int| 0 <= a < rest.len() && rest[a].0 == j;
                    assert(l[a + 1] == rest[a]);
                }
                if listed(l, j) {
                    let a = choose|a: int| 0 <= a < l.len() && l[a].0 == j;
                    assert(a != 0);
                    assert(rest[a - 1] == l[a]);
                }
            }
            assert forall|j: int| 0 <= j < k implies (#[trigger] listed(l, j) <==> belongs(
                v,
                combats,
                notes,
                entries,
                starts,
                j,
            )) by {
                if j < i {
                    assert(listed(rest, j) <==> belongs(v, combats, notes, entries, starts, j));
                }
            }
        } else {
            assert(l =~= rest);
            assert(!listed(l, i)) by {
                if listed(l, i) {
                    let a = choose|a: int| 0 <= a < l.len() && l[a].0 == i;
                    assert(rest[a].0 < k - 1);
                }
            }
        }
    }
}

/// The selection after ticking (`checked`) or unticking combat `index`.
pub open spec fn toggled_selection(s: Seq<usize>, index: usize, checked: bool) -> Seq<usize> {
    if checked {
        if s.contains(index) {
            s
        } else {
            s.push(index)
        }
    } else {
        removed(s, index)
    }
}

proof fn lemma_push_contains(t: Seq<usize>, e: usize, y: usize)
    ensures
        t.push(e).contains(y) <==> (t.contains(y) || y == e),
{
    if t.push(e).contains(y) {
        let i = choose|i: int| 0 <= i < t.push(e).len() && t.push(e)[i] == y;
        if i < t.len() {
            assert(t[i] == y);
        }
    }
    if t.contains(y) {
        let i = choose|i: int| 0 <= i < t.len() && t[i] == y;
        assert(t.push(e)[i] == y);
    }
    if y == e {
        assert(t.push(e)[t.len() as int] == y);
    }
}

#[verifier::spinoff_prover]
proof fn lemma_removed(s: Seq<usize>, x: usize)
    ensures
        forall|y: usize| #[trigger] removed(s, x).contains(y) <==> (s.contains(y) && y != x),
        distinct(s) ==> distinct(removed(s, x)),
    decreases s.len(),
{
    if s.len() > 0 {
        let t = s.drop_last();
        let e = s.last();
        lemma_removed(t, x);
        assert(s == t.push(e));
        assert forall|y: usize| #[trigger] removed(s, x).contains(y) <==> (s.contains(y) && y != x) by {
            lemma_push_contains(t, e, y);
            if e != x {
                lemma_push_contains(removed(t, x), e, y);
            }
        }
        if distinct(s) && e != x {
            let r = removed(t, x);
            assert(distinct(t));
            assert(!t.contains(e)) by {
                if t.contains(e) {
                    let j = choose|j: int| 0 <= j < t.len() && t[j] == e;
                    assert(s[j] == s[s.len() - 1]);
                }
            }
            assert(!r.contains(e));
            assert forall|a: int, b: int| 0 <= a < b < r.push(e).len() implies r.push(e)[a] != r.push(e)[b] by {
                if b == r.len() {
                    if r[a] == e {
                        assert(r.contains(e));
                    }
                }
            }
        }
    }
}

/// Ticking a combat that is already ticked changes nothing, unticking takes
/// it out entirely, and no combat is ever in the selection twice; the other
/// combats' ticks stay as they were.
pub proof fn lemma_selection_stays_distinct(s: Seq<usize>, index: usize, checked: bool)
    requires
        distinct(s),
    ensures
        distinct(toggled_selection(s, index, checked)),
        toggled_selection(s, index, checked).contains(index) == checked,
        forall|x: usize| x != index ==> (#[trigger] toggled_selection(s, index, checked).contains(x) == s.contains(x)),
{
    lemma_removed(s, index);
    if checked && !s.contains(index) {
        let t = s.push(index);
        assert(t[s.len() as int] == index);
        assert forall|a: int, b: int| 0 <= a < b < t.len() implies t[a] != t[b] by {
            if b == s.len() {
                if s[a] == index {
                    assert(s.contains(index));
                }
            }
        }
        assert forall|x: usize| x != index implies (#[trigger] t.contains(x) == s.contains(x)) by {
            lemma_push_contains(s, index, x);
        }
    }
}

impl CompareView {
    pub fn new() -> (r: CompareView)
        ensures
            !r.open,
            r.selected@.len() == 0,
            r.name_filter@.len() == 0,
            r.filter@.environment is None && r.filter@.map is None && r.filter@.difficulty == DifficultyFilter::Any,
            r.range.from@.len() == 0 && r.range.to@.len() == 0,
    {
        CompareView {
            open: false,
            selected: Vec::new(),
            name_filter: String::new(),
            filter: CombatFilter::new(),
            range: DateRange::new(),
        }
    }

    pub fn is_open(&self) -> (r: bool)
        ensures
            r == self.open,
    {
        self.open
    }

    pub fn toggle(&mut self)
        ensures
            final(self).open == !old(self).open,
            final(self).selected == old(self).selected,
    {
        self.open = !self.open;
    }

    fn is_selected(&self, index: usize) -> (r: bool)
        ensures
            r == self.selected@.contains(index),
    {
        let mut i: usize = 0;
        while i < self.selected.len()
            invariant
                i <= self.selected@.len(),
                forall|k: int| 0 <= k < i ==> self.selected@[k] != index,
            decreases self.selected.len() - i,
        {
            if self.selected[i] == index {
                return true;
            }
            i += 1;
        }
        false
    }

    /// Ticks or unticks combat `index`.
    pub fn toggle_selected(&mut self, index: usize, checked: bool)
        ensures
            final(self).selected@ == toggled_selection(old(self).selected@, index, checked),
            final(self).open == old(self).open,
    {
        if checked {
            if !self.is_selected(index) {
                self.selected.push(index);
            }
        } else {
            let ghost s = self.selected@;
            let mut kept: Vec<usize> = Vec::new();
            for i in 0..self.selected.len()
                invariant
                    s == self.selected@,
                    kept@ == removed(s.take(i as int), index),
            {
                assert(s.take(i + 1).drop_last() =~= s.take(i as int));
                if self.selected[i] != index {
                    kept.push(self.selected[i]);
                }
            }
            assert(s.take(s.len() as int) =~= s);
            self.selected = kept;
        }
    }

    /// Adds every combat that the filters leave in `visible` (the list as
    /// [`CompareView::visible_combats`] gives it) to the selection; what was
    /// ticked stays ticked.
    pub fn select_matching(&mut self, visible: &Vec<(usize, bool)>)
        ensures
            forall|x: usize| #[trigger] final(self).selected@.contains(x) <==> (old(self).selected@.contains(x)
                || exists|k: int| 0 <= k < visible@.len() && visible@[k] == (x, true)),
            distinct(old(self).selected@) ==> distinct(final(self).selected@),
            final(self).open == old(self).open,
    {
        let ghost start = self.selected@;
        for k in 0..visible.len()
            invariant
                self.open == old(self).open,
                start == old(self).selected@,
                forall|x: usize| #[trigger] self.selected@.contains(x) <==> (start.contains(x)
                    || exists|j: int| 0 <= j < k && visible@[j] == (x, true)),
                distinct(start) ==> distinct(self.selected@),
        {
            let (i, matches) = visible[k];
            let ghost before = self.selected@;
            if matches {
                self.toggle_selected(i, true);
                proof {
                    if distinct(start) {
                        lemma_selection_stays_distinct(before, i, true);
                    }
                    assert forall|x: usize| #[trigger] self.selected@.contains(x) <==> (start.contains(x)
                        || exists|j: int| 0 <= j < k + 1 && visible@[j] == (x, true)) by {
                        if before.contains(i) {
                            assert(self.selected@ == before);
                        } else {
                            lemma_push_contains(before, i, x);
                        }
                        if x == i {
                            assert(visible@[k as int] == (x, true));
                        }
                        if exists|j: int| 0 <= j < k + 1 && visible@[j] == (x, true) {
                            let j = choose|j: int| 0 <= j < k + 1 && visible@[j] == (x, true);
                            if j == k {
                                assert(x == i);
                            }
                        }
                    }
                }
            } else {
                proof {
                    assert forall|x: usize| #[trigger] self.selected@.contains(x) <==> (start.contains(x)
                        || exists|j: int| 0 <= j < k + 1 && visible@[j] == (x, true)) by {
                        if exists|j: int| 0 <= j < k + 1 && visible@[j] == (x, true) {
                            let j = choose|j: int| 0 <= j < k + 1 && visible@[j] == (x, true);
                            assert(j != k);
                        }
                    }
                }
            }
        }
    }

    /// Unticks every combat.
    pub fn clear_selection(&mut self)
        ensures
            final(self).selected@.len() == 0,
            final(self).open == old(self).open,
    {
        self.selected = Vec::new();
    }

    /// The ticked combats in list order, for building the comparison.
    pub fn selected_in_order(&self) -> (r: Vec<usize>)
        ensures
            crate::order::strictly_increasing(r@),
            forall|x: usize| #[trigger] r@.contains(x) <==> self.selected@.contains(x),
    {
        crate::order::sorted_unique(&self.selected)
    }

    /// Whether a combat passes the search text, the time window and the
    /// pickers. A combat with no known start time is left in.
    pub fn matches_filters(&self, identifier: &str, note: &str, entry: &CombatEntry, start: Option<i64>) -> (r:
        bool)
        ensures
            r == view_matches(*self, identifier@, note@, *entry, start),
    {
        let needle_chars = trim_str(self.name_filter.as_str());
        let needle_s = string_of(&needle_chars);
        let needle = to_lowercase(needle_s.as_str());
        let id_lower = to_lowercase(identifier);
        let note_lower = to_lowercase(note);
        if !needle.as_str().is_empty() && !str_contains(id_lower.as_str(), needle.as_str())
            && !str_contains(note_lower.as_str(), needle.as_str()) {
            return false;
        }
        if let Some(t) = start {
            if !self.range.matches(t) {
                return false;
            }
        }
        let env: Option<&str> = match &entry.environment {
            Some(s) => Some(s.as_str()),
            None => None,
        };
        self.filter.matches(env, entry.difficulty, entry.base_name.as_str())
    }

    /// The combats the list shows, newest first: those that pass the filters
    /// and those that are ticked, each with whether it passes.
    pub fn visible_combats(
        &self,
        combats: &Vec<String>,
        notes: &Vec<String>,
        entries: &Vec<CombatEntry>,
        start_times: &Vec<i64>,
    ) -> (r: Vec<(usize, bool)>)
        requires
            notes@.len() >= combats@.len(),
            entries@.len() >= combats@.len(),
        ensures
            r@ == visible_upto(*self, combats@, notes@, entries@, start_times@, combats@.len() as int),
    {
        let mut out: Vec<(usize, bool)> = Vec::new();
        let mut k: usize = combats.len();
        while k > 0
            invariant
                k <= combats@.len(),
                notes@.len() >= combats@.len(),
                entries@.len() >= combats@.len(),
                out@ + visible_upto(*self, combats@, notes@, entries@, start_times@, k as int)
                    == visible_upto(*self, combats@, notes@, entries@, start_times@, combats@.len() as int),
            decreases k,
        {
            let i = k - 1;
            let start = if i < start_times.len() {
                Some(start_times[i])
            } else {
                None
            };
            let m = self.matches_filters(combats[i].as_str(), notes[i].as_str(), &entries[i], start);
            let ghost before = out@;
            if m || self.is_selected(i) {
                out.push((i, m));
            }
            assert(out@ + visible_upto(*self, combats@, notes@, entries@, start_times@, i as int)
                =~= before + visible_upto(*self, combats@, notes@, entries@, start_times@, k as int));
            k = i;
        }
        assert(out@ + Seq::<(usize, bool)>::empty() =~= out@);
        out
    }
}

impl Default for CompareView {
    /// A closed view with nothing ticked and no filter set.
    fn default() -> (r: CompareView)
        ensures
            !r.open,
            r.selected@.len() == 0,
            r.name_filter@.len() == 0,
            r.filter@.environment is None && r.filter@.map is None && r.filter@.difficulty == DifficultyFilter::Any,
            r.range.from@.len() == 0 && r.range.to@.len() == 0,
    {
        CompareView::new()
    }
}


/// The child names one slot of a comparison has under a row: none where the
/// slot's combat has nothing there.
pub open spec fn slot_names(slot: Option<Vec<String>>) -> Seq<Seq<char>> {
    match slot {
        Some(v) => views(v@),
        None => seq![],
    }
}

/// Every slot's child names, slot by slot.
pub open spec fn flat_names(slots: Seq<Option<Vec<String>>>) -> Seq<Seq<char>>
    decreases slots.len(),
{
    if slots.len() == 0 {
        seq![]
    } else {
        flat_names(slots.drop_last()) + slot_names(slots.last())
    }
}

/// The distinct names of `s`, in the order they first appear.
pub open spec fn first_seen(s: Seq<Seq<char>>) -> Seq<Seq<char>>
    decreases s.len(),
{
    if s.len() == 0 {
        seq![]
    } else {
        let before = first_seen(s.drop_last());
        if before.contains(s.last()) {
            before
        } else {
            before.push(s.last())
        }
    }
}

/// The last position of `name` in `s`.
pub open spec fn last_index(s: Seq<Seq<char>>, name: Seq<char>) -> Option<int>
    decreases s.len(),
{
    if s.len() == 0 {
        None
    } else if s.last() == name {
        Some(s.len() - 1)
    } else {
        last_index(s.drop_last(), name)
    }
}

/// A position as an exec value matches a position as a spec value.
pub open spec fn same_index(c: Option<usize>, l: Option<int>) -> bool {
    match c {
        Some(k) => l == Some(k as int),
        None => l is None,
    }
}

proof fn lemma_first_seen(s: Seq<Seq<char>>)
    ensures
        forall|y: Seq<char>| #[trigger] first_seen(s).contains(y) <==> s.contains(y),
        forall|a: int, b: int| 0 <= a < b < first_seen(s).len() ==> #[trigger] first_seen(s)[a] != #[trigger] first_seen(s)[b],
    decreases s.len(),
{
    if s.len() > 0 {
        let t = s.drop_last();
        let e = s.last();
        lemma_first_seen(t);
        assert(s == t.push(e));
        let before = first_seen(t);
        assert forall|y: Seq<char>| #[trigger] first_seen(s).contains(y) <==> s.contains(y) by {
            lemma_push_contains_str(t, e, y);
            if !before.contains(e) {
                lemma_push_contains_str(before, e, y);
            }
        }
        if !before.contains(e) {
            let f = before.push(e);
            assert forall|a: int, b: int| 0 <= a < b < f.len() implies #[trigger] f[a] != #[trigger] f[b] by {
                if b == before.len() && f[a] == e {
                    assert(before.contains(e));
                }
            }
        }
    }
}

proof fn lemma_push_contains_str(t: Seq<Seq<char>>, e: Seq<char>, y: Seq<char>)
    ensures
        t.push(e).contains(y) <==> (t.contains(y) || y == e),
{
    if t.push(e).contains(y) {
        let i = choose|i: int| 0 <= i < t.push(e).len() && t.push(e)[i] == y;
        if i < t.len() {
            assert(t[i] == y);
        }
    }
    if t.contains(y) {
        let i = choose|i: int| 0 <= i < t.len() && t[i] == y;
        assert(t.push(e)[i] == y);
    }
    if y == e {
        assert(t.push(e)[t.len() as int] == y);
    }
}

proof fn lemma_last_index(s: Seq<Seq<char>>, name: Seq<char>)
    ensures
        last_index(s, name) is None <==> !s.contains(name),
        last_index(s, name) matches Some(i) ==> 0 <= i < s.len() && s[i] == name,
    decreases s.len(),
{
    if s.len() > 0 {
        lemma_last_index(s.drop_last(), name);
        lemma_push_contains_str(s.drop_last(), s.last(), name);
        assert(s == s.drop_last().push(s.last()));
    }
}

proof fn lemma_earlier_slots_in_flat(slots: Seq<Option<Vec<String>>>, s: int, t: int, y: Seq<char>)
    requires
        0 <= t < s <= slots.len(),
        slot_names(slots[t]).contains(y),
    ensures
        flat_names(slots.take(s)).contains(y),
    decreases s,
{
    let p = slots.take(s);
    assert(p.drop_last() =~= slots.take(s - 1));
    if t == s - 1 {
        let i = choose|i: int| 0 <= i < slot_names(slots[t]).len() && slot_names(slots[t])[i] == y;
        assert(flat_names(p) == flat_names(slots.take(s - 1)) + slot_names(slots[t]));
        assert(flat_names(p)[flat_names(slots.take(s - 1)).len() + i] == y);
    } else {
        lemma_earlier_slots_in_flat(slots, s - 1, t, y);
        let f = flat_names(slots.take(s - 1));
        let i = choose|i: int| 0 <= i < f.len() && f[i] == y;
        assert(flat_names(p) == f + slot_names(p.last()));
        assert(flat_names(p)[i] == y);
    }
}

/// Lining rows up loses none and doubles none: every child name of every
/// slot has a row, no two rows share a name, and every row is some slot's
/// child.
pub proof fn lemma_alignment_keeps_every_row(slots: Seq<Option<Vec<String>>>, y: Seq<char>)
    ensures
        first_seen(flat_names(slots)).contains(y) <==> exists|t: int| 0 <= t < slots.len() && #[trigger] slot_names(slots[t]).contains(y),
        forall|a: int, b: int| 0 <= a < b < first_seen(flat_names(slots)).len() ==> #[trigger] first_seen(flat_names(slots))[a]
            != #[trigger] first_seen(flat_names(slots))[b],
{
    lemma_first_seen(flat_names(slots));
    assert(slots.take(slots.len() as int) =~= slots);
    if exists|t: int| 0 <= t < slots.len() && #[trigger] slot_names(slots[t]).contains(y) {
        let t = choose|t: int| 0 <= t < slots.len() && #[trigger] slot_names(slots[t]).contains(y);
        lemma_earlier_slots_in_flat(slots, slots.len() as int, t, y);
    }
    if flat_names(slots).contains(y) {
        lemma_flat_names_from_slots(slots, y);
    }
}

proof fn lemma_flat_names_from_slots(slots: Seq<Option<Vec<String>>>, y: Seq<char>)
    requires
        flat_names(slots).contains(y),
    ensures
        exists|t: int| 0 <= t < slots.len() && #[trigger] slot_names(slots[t]).contains(y),
    decreases slots.len(),
{
    let init = slots.drop_last();
    let f = flat_names(init);
    let l = slot_names(slots.last());
    let i = choose|i: int| 0 <= i < flat_names(slots).len() && flat_names(slots)[i] == y;
    if i < f.len() {
        assert(f[i] == y);
        lemma_flat_names_from_slots(init, y);
        let t = choose|t: int| 0 <= t < init.len() && #[trigger] slot_names(init[t]).contains(y);
        assert(slot_names(slots[t]).contains(y));
    } else {
        assert(l[i - f.len()] == y);
        assert(slot_names(slots[slots.len() - 1]).contains(y));
    }
}

fn position(order: &Vec<String>, name: &str) -> (r: Option<usize>)
    ensures
        r matches Some(p) ==> p < order@.len() && order@[p as int]@ == name@ && forall|k: int| 0 <= k < p ==> order@[k]@ != name@,
        r is None ==> !views(order@).contains(name@),
{
    let mut p: usize = 0;
    while p < order.len()
        invariant
            p <= order@.len(),
            forall|k: int| 0 <= k < p ==> order@[k]@ != name@,
        decreases order.len() - p,
    {
        if crate::text::str_eq(order[p].as_str(), name) {
            return Some(p);
        }
        p += 1;
    }
    assert forall|k: int| 0 <= k < views(order@).len() implies views(order@)[k] != name@ by {
        assert(views(order@)[k] == order@[k]@);
    }
    None
}

fn with_entry(row: &Vec<Option<usize>>, at: usize, value: Option<usize>) -> (r: Vec<Option<usize>>)
    requires
        at < row@.len(),
    ensures
        r@ == row@.update(at as int, value),
{
    let mut r: Vec<Option<usize>> = Vec::new();
    for t in 0..row.len()
        invariant
            r@.len() == t,
            forall|u: int| 0 <= u < t ==> r@[u] == if u == at { value } else { row@[u] },
    {
        if t == at {
            r.push(value);
        } else {
            r.push(row[t]);
        }
    }
    assert(r@ =~= row@.update(at as int, value));
    r
}

/// Lines up the rows that several combats have under one row of a
/// comparison: the child names of every slot, each name once, in the order
/// they first appear slot by slot; and for each name and slot, where the
/// slot has a child of that name (the last, should it have two).
pub fn align_children(slots: &Vec<Option<Vec<String>>>) -> (r: (Vec<String>, Vec<Vec<Option<usize>>>))
    ensures
        views(r.0@) == first_seen(flat_names(slots@)),
        r.1@.len() == r.0@.len(),
        forall|i: int| 0 <= i < r.1@.len() ==> (#[trigger] r.1@[i])@.len() == slots@.len(),
        forall|i: int, t: int|
            0 <= i < r.1@.len() && 0 <= t < slots@.len() ==> same_index(
                #[trigger] r.1@[i]@[t],
                last_index(slot_names(slots@[t]), r.0@[i]@),
            ),
{
    let n = slots.len();
    let mut order: Vec<String> = Vec::new();
    let mut children: Vec<Vec<Option<usize>>> = Vec::new();
    for s in 0..n
        invariant
            n == slots@.len(),
            views(order@) == first_seen(flat_names(slots@.take(s as int))),
            children@.len() == order@.len(),
            forall|i: int| 0 <= i < children@.len() ==> (#[trigger] children@[i])@.len() == n,
            forall|i: int, t: int|
                0 <= i < children@.len() && 0 <= t < n ==> same_index(
                    #[trigger] children@[i]@[t],
                    if t < s {
                        last_index(slot_names(slots@[t]), order@[i]@)
                    } else {
                        None
                    },
                ),
    {
        let ghost prefix = flat_names(slots@.take(s as int));
        proof {
            assert(slots@.take(s + 1).drop_last() =~= slots@.take(s as int));
            assert(flat_names(slots@.take(s + 1)) == prefix + slot_names(slots@[s as int]));
        }
        match &slots[s] {
            None => {
                proof {
                    assert(prefix + slot_names(slots@[s as int]) =~= prefix);
                    assert forall|i: int, t: int|
                        0 <= i < children@.len() && 0 <= t < n implies same_index(
                            #[trigger] children@[i]@[t],
                            if t < s + 1 {
                                last_index(slot_names(slots@[t]), order@[i]@)
                            } else {
                                None
                            },
                        ) by {
                        if t == s {
                            assert(slot_names(slots@[t]) =~= Seq::<Seq<char>>::empty());
                        }
                    }
                }
            },
            Some(list) => {
                let ghost names = views(list@);
                assert(names == slot_names(slots@[s as int]));
                for k in 0..list.len()
                    invariant
                        n == slots@.len(),
                        s < n,
                        names == views(list@),
                        names == slot_names(slots@[s as int]),
                        prefix == flat_names(slots@.take(s as int)),
                        views(order@) == first_seen(prefix + names.take(k as int)),
                        children@.len() == order@.len(),
                        forall|i: int| 0 <= i < children@.len() ==> (#[trigger] children@[i])@.len() == n,
                        forall|i: int, t: int|
                            0 <= i < children@.len() && 0 <= t < n ==> same_index(
                                #[trigger] children@[i]@[t],
                                if t < s {
                                    last_index(slot_names(slots@[t]), order@[i]@)
                                } else if t == s {
                                    last_index(names.take(k as int), order@[i]@)
                                } else {
                                    None
                                },
                            ),
                {
                    let ghost before = views(order@);
                    let ghost seen = prefix + names.take(k as int);
                    let name = &list[k];
                    proof {
                        assert(prefix + names.take(k + 1) =~= seen.push(names[k as int]));
                        assert(names.take(k + 1).drop_last() =~= names.take(k as int));
                        assert(names[k as int] == name@);
                        lemma_first_seen(seen);
                    }
                    match position(&order, name.as_str()) {
                        Some(p) => {
                            proof {
                                assert(before[p as int] == name@);
                                assert(before.contains(name@));
                                assert(seen.push(name@).drop_last() =~= seen);
                                assert(first_seen(seen.push(name@)) == before);
                            }
                            let row = with_entry(&children[p], s, Some(k));
                            children.set(p, row);
                            proof {
                                assert forall|i: int, t: int|
                                    0 <= i < children@.len() && 0 <= t < n implies same_index(
                                        #[trigger] children@[i]@[t],
                                        if t < s {
                                            last_index(slot_names(slots@[t]), order@[i]@)
                                        } else if t == s {
                                            last_index(names.take(k + 1), order@[i]@)
                                        } else {
                                            None
                                        },
                                    ) by {
                                    if t == s && i != p {
                                        assert(before[i] != before[p as int]);
                                        assert(order@[i]@ == before[i]);
                                    }
                                }
                            }
                        },
                        None => {
                            let mut row: Vec<Option<usize>> = Vec::new();
                            for t in 0..n
                                invariant
                                    row@.len() == t,
                                    s < n,
                                    forall|u: int| 0 <= u < t ==> row@[u] == if u == s { Some(k) } else { None::<usize> },
                            {
                                if t == s {
                                    row.push(Some(k));
                                } else {
                                    row.push(None);
                                }
                            }
                            let ghost old_children = children@;
                            order.push(name.clone());
                            children.push(row);
                            proof {
                                assert(views(order@) =~= before.push(name@));
                                assert(seen.push(name@).drop_last() =~= seen);
                                assert(!before.contains(name@));
                                assert(first_seen(seen.push(name@)) == before.push(name@));
                                let j = order@.len() - 1;
                                assert forall|i: int, t: int|
                                    0 <= i < children@.len() && 0 <= t < n implies same_index(
                                        #[trigger] children@[i]@[t],
                                        if t < s {
                                            last_index(slot_names(slots@[t]), order@[i]@)
                                        } else if t == s {
                                            last_index(names.take(k + 1), order@[i]@)
                                        } else {
                                            None
                                        },
                                    ) by {
                                    if i == j {
                                        assert(order@[i]@ == name@);
                                        if t < s {
                                            lemma_last_index(slot_names(slots@[t]), name@);
                                            if slot_names(slots@[t]).contains(name@) {
                                                lemma_earlier_slots_in_flat(slots@, s as int, t, name@);
                                                let w = choose|w: int| 0 <= w < prefix.len() && prefix[w] == name@;
                                                assert(seen[w] == name@);
                                                assert(seen.contains(name@));
                                            }
                                        } else if t == s {
                                            lemma_last_index(names.take(k as int), name@);
                                            if names.take(k as int).contains(name@) {
                                                let w = choose|w: int| 0 <= w < names.take(k as int).len() && names.take(k as int)[w] == name@;
                                                assert(seen[prefix.len() + w] == name@);
                                                assert(seen.contains(name@));
                                            }
                                        }
                                    } else {
                                        assert(children@[i] == old_children[i]);
                                        assert(order@[i]@ == before[i]);
                                        if t == s {
                                            assert(before[i] != name@) by {
                                                if before[i] == name@ {
                                                    assert(before.contains(name@));
                                                }
                                            }
                                        }
                                    }
                                }
                            }
                        },
                    }
                }
                proof {
                    assert(names.take(names.len() as int) =~= names);
                }
            },
        }
    }
    assert(slots@.take(n as int) =~= slots@);
    (order, children)
}

/// The player each slot of a comparison shows, by position in its combat's
/// players: the reference slot's player, wherever that player took part;
/// the slot's own pick elsewhere.
pub open spec fn followed_pick(players: Seq<Seq<Seq<char>>>, picks: Seq<usize>, s: int) -> usize {
    let reference = players[0][picks[0] as int];
    if s > 0 && players[s].contains(reference) {
        choose_first(players[s], reference)
    } else {
        picks[s]
    }
}

/// The first position of `name` in `s` (there must be one).
pub open spec fn choose_first(s: Seq<Seq<char>>, name: Seq<char>) -> usize {
    (choose|i: int| 0 <= i < s.len() && s[i] == name && forall|j: int| 0 <= j < i ==> s[j] != name) as usize
}

pub open spec fn player_views(players: Seq<Vec<String>>) -> Seq<Seq<Seq<char>>> {
    players.map_values(|v: Vec<String>| views(v@))
}

/// Points every slot at the reference slot's player where that player took
/// part, so that the comparison sets one player's runs side by side; a slot
/// the player was not in keeps its own pick. `players` lists each slot's
/// players by name, `picks` the player each slot shows.
pub fn follow_the_reference_player(players: &Vec<Vec<String>>, picks: &Vec<usize>) -> (r: Vec<usize>)
    requires
        picks@.len() == players@.len(),
        forall|s: int| 0 <= s < picks@.len() ==> #[trigger] picks@[s] < players@[s]@.len(),
    ensures
        r@.len() == picks@.len(),
        forall|s: int| 0 <= s < r@.len() ==> #[trigger] r@[s] == followed_pick(player_views(players@), picks@, s),
{
    let ghost pv = player_views(players@);
    let mut r: Vec<usize> = Vec::new();
    if picks.len() == 0 {
        return r;
    }
    let reference = &players[0][picks[0]];
    r.push(picks[0]);
    for s in 1..picks.len()
        invariant
            pv == player_views(players@),
            picks@.len() == players@.len(),
            picks@.len() > 0,
            picks@[0] < players@[0]@.len(),
            reference@ == pv[0][picks@[0] as int],
            r@.len() == s,
            forall|u: int| 0 <= u < s ==> #[trigger] r@[u] == followed_pick(pv, picks@, u),
            forall|u: int| 0 <= u < picks@.len() ==> #[trigger] picks@[u] < players@[u]@.len(),
    {
        assert(pv[s as int] == views(players@[s as int]@));
        match position(&players[s], reference.as_str()) {
            Some(p) => {
                proof {
                    let ps = pv[s as int];
                    assert(ps[p as int] == reference@);
                    assert(ps.contains(reference@));
                    assert forall|j: int| 0 <= j < p implies ps[j] != reference@ by {
                        assert(ps[j] == players@[s as int]@[j]@);
                    }
                    let q = choose|i: int| 0 <= i < ps.len() && ps[i] == reference@ && forall|j: int| 0 <= j < i ==> ps[j] != reference@;
                    assert(q == p);
                }
                r.push(p);
            },
            None => {
                r.push(picks[s]);
            },
        }
    }
    r
}

} // verus!
