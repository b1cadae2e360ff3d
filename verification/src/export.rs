//! The layout of a spreadsheet export: where values go, how names are
//! indented, which number format a column gets, and the columns each tab
//! writes.
use vstd::prelude::*;
use crate::text::{chars_of, extend_str, string_of};
use crate::combat::{Combat, file_identifier_of};

verus! {

/// The number formats a column can be written in, by how many decimals the
/// metric is shown with.
pub const NUMBER_FORMATS: [&'static str; 3] = ["#,##0", "#,##0.0", "#,##0.00"];

pub open spec fn number_format_spec(decimals: usize) -> Seq<char> {
    if decimals == 0 {
        "#,##0"@
    } else if decimals == 1 {
        "#,##0.0"@
    } else {
        "#,##0.00"@
    }
}

/// The number format for a column shown with `decimals` decimals; more
/// decimals than there are formats get the last one.
pub fn number_format(decimals: usize) -> (r: &'static str)
    ensures
        r@ == number_format_spec(decimals),
{
    let i: usize = if decimals < NUMBER_FORMATS.len() {
        decimals
    } else {
        NUMBER_FORMATS.len() - 1
    };
    NUMBER_FORMATS[i]
}

/// A column of a sheet: its heading and how many decimals it is written with.
pub struct Column {
    pub header: String,
    pub decimals: usize,
}

/// Where a column's values go: the first column holds the names.
pub fn column_at(index: usize) -> (r: u16)
    requires
        (index as u16) < u16::MAX,
    ensures
        r == (index as u16) + 1,
{
    index as u16 + 1
}

/// `level` indents of four spaces.
pub open spec fn indent(level: nat) -> Seq<char>
    decreases level,
{
    if level == 0 {
        seq![]
    } else {
        indent((level - 1) as nat) + "    "@
    }
}

/// A row's name at its depth in the tree, indented with spaces.
pub fn indented(name: &str, level: usize) -> (r: String)
    ensures
        r@ == indent(level as nat) + name@,
{
    let mut out: Vec<char> = Vec::new();
    for i in 0..level
        invariant
            out@ == indent(i as nat),
    {
        extend_str(&mut out, "    ");
        proof {
            reveal_strlit("    ");
        }
    }
    extend_str(&mut out, name);
    string_of(&out)
}

/// The name the save dialog opens with: the combat's file identifier with the
/// spreadsheet extension.
pub fn default_file_name(combat: &Combat) -> (r: String)
    ensures
        r@ == file_identifier_of(*combat) + ".xlsx"@,
{
    let id = combat.file_identifier();
    let mut out = chars_of(id.as_str());
    extend_str(&mut out, ".xlsx");
    string_of(&out)
}

/// The tabs of the main window.
#[derive(Debug, Clone, Copy, PartialEq, Eq, Structural)]
pub enum MainTab {
    Summary,
    DamageDealt,
    DamageTaken,
    SelfHealing,
    HealingAlly,
    HealingReceived,
}

pub open spec fn tab_name(t: MainTab) -> Seq<char> {
    match t {
        MainTab::Summary => "Summary"@,
        MainTab::DamageDealt => "Damage Dealt"@,
        MainTab::DamageTaken => "Damage Taken"@,
        MainTab::SelfHealing => "Self Healing"@,
        MainTab::HealingAlly => "Healing Ally"@,
        MainTab::HealingReceived => "Healing Received"@,
    }
}

impl MainTab {
    /// What the tab is called, on screen and as the sheet's name.
    pub fn name(self) -> (r: &'static str)
        ensures
            r@ == tab_name(self),
    {
        match self {
            MainTab::Summary => "Summary",
            MainTab::DamageDealt => "Damage Dealt",
            MainTab::DamageTaken => "Damage Taken",
            MainTab::SelfHealing => "Self Healing",
            MainTab::HealingAlly => "Healing Ally",
            MainTab::HealingReceived => "Healing Received",
        }
    }
}

/// A character a sheet name may not hold.
pub open spec fn sheet_forbidden(c: char) -> bool {
    c == ':' || c == '\\' || c == '/' || c == '?' || c == '*' || c == '[' || c == ']'
}

/// Every tab can be a sheet of one workbook: its name is at most 31
/// characters long, holds none of `: \ / ? * [ ]`, and no two tabs share a
/// name.
pub proof fn lemma_tab_names_are_sheet_names(a: MainTab, b: MainTab)
    ensures
        tab_name(a).len() <= 31,
        forall|i: int| 0 <= i < tab_name(a).len() ==> !sheet_forbidden(#[trigger] tab_name(a)[i]),
        a != b ==> tab_name(a) != tab_name(b),
{
    reveal_strlit("Summary");
    reveal_strlit("Damage Dealt");
    reveal_strlit("Damage Taken");
    reveal_strlit("Self Healing");
    reveal_strlit("Healing Ally");
    reveal_strlit("Healing Received");
    if a != b && tab_name(a) == tab_name(b) {
        let x = tab_name(a);
        let y = tab_name(b);
        assert(x.len() == y.len());
        assert(x[0] == y[0]);
        assert(x[1] == y[1]);
        assert(x[7] == y[7]);
        assert(x[9] == y[9]);
    }
}

/// The columns a damage tab writes, as heading and decimals.
/// A metric list as plain values.
pub open spec fn metric_views(s: Seq<(&'static str, usize)>) -> Seq<(Seq<char>, usize)> {
    s.map_values(|m: (&'static str, usize)| (m.0@, m.1))
}

/// The columns a damage tab writes, heading and decimals, in order.
pub open spec fn damage_metric_list() -> Seq<(Seq<char>, usize)> {
    seq![
        ("DPS"@, 0usize),
        ("Total Damage"@, 0usize),
        ("Damage %"@, 2usize),
        ("Resistance %"@, 2usize),
        ("Max One-Hit"@, 0usize),
        ("Average Hit"@, 0usize),
        ("Critical %"@, 2usize),
        ("Flanking %"@, 2usize),
        ("Accuracy %"@, 2usize),
        ("Hits"@, 0usize),
        ("Hits Hull"@, 0usize),
        ("Hits Shield"@, 0usize),
        ("Hits/s"@, 1usize),
        ("Hits %"@, 2usize),
        ("Misses"@, 0usize),
        ("Base Damage"@, 0usize),
        ("Base DPS"@, 0usize),
        ("Shield Drain"@, 0usize),
        ("Crit Damage"@, 0usize),
        ("Non-Crit Hull Damage"@, 0usize),
        ("Average Crit Hit"@, 0usize),
        ("Average Non-Crit Hull Hit"@, 0usize),
        ("Damage Hull"@, 0usize),
        ("Damage Shield"@, 0usize),
    ]
}

pub fn damage_metrics() -> (r: Vec<(&'static str, usize)>)
    ensures
        metric_views(r@) == damage_metric_list(),
        forall|i: int| 0 <= i < r@.len() ==> (#[trigger] r@[i]).1 <= 2,
{
    let mut r: Vec<(&'static str, usize)> = Vec::new();
    r.push(("DPS", 0));
    r.push(("Total Damage", 0));
    r.push(("Damage %", 2));
    r.push(("Resistance %", 2));
    r.push(("Max One-Hit", 0));
    r.push(("Average Hit", 0));
    r.push(("Critical %", 2));
    r.push(("Flanking %", 2));
    r.push(("Accuracy %", 2));
    r.push(("Hits", 0));
    r.push(("Hits Hull", 0));
    r.push(("Hits Shield", 0));
    r.push(("Hits/s", 1));
    r.push(("Hits %", 2));
    r.push(("Misses", 0));
    r.push(("Base Damage", 0));
    r.push(("Base DPS", 0));
    r.push(("Shield Drain", 0));
    r.push(("Crit Damage", 0));
    r.push(("Non-Crit Hull Damage", 0));
    r.push(("Average Crit Hit", 0));
    r.push(("Average Non-Crit Hull Hit", 0));
    r.push(("Damage Hull", 0));
    r.push(("Damage Shield", 0));
    proof {
        reveal_strlit("DPS");
        reveal_strlit("Total Damage");
        reveal_strlit("Damage %");
        reveal_strlit("Resistance %");
        reveal_strlit("Max One-Hit");
        reveal_strlit("Average Hit");
        reveal_strlit("Critical %");
        reveal_strlit("Flanking %");
        reveal_strlit("Accuracy %");
        reveal_strlit("Hits");
        reveal_strlit("Hits Hull");
        reveal_strlit("Hits Shield");
        reveal_strlit("Hits/s");
        reveal_strlit("Hits %");
        reveal_strlit("Misses");
        reveal_strlit("Base Damage");
        reveal_strlit("Base DPS");
        reveal_strlit("Shield Drain");
        reveal_strlit("Crit Damage");
        reveal_strlit("Non-Crit Hull Damage");
        reveal_strlit("Average Crit Hit");
        reveal_strlit("Average Non-Crit Hull Hit");
        reveal_strlit("Damage Hull");
        reveal_strlit("Damage Shield");
    }
    assert(metric_views(r@) =~= damage_metric_list());
    r
}

/// The columns a healing tab writes.
/// The columns a healing tab writes.
pub open spec fn heal_metric_list() -> Seq<(Seq<char>, usize)> {
    seq![
        ("HPS"@, 0usize),
        ("Total Heal"@, 0usize),
        ("Heal %"@, 2usize),
        ("Average Heal"@, 0usize),
        ("Critical %"@, 2usize),
        ("Ticks"@, 0usize),
        ("Ticks/s"@, 1usize),
        ("Ticks %"@, 2usize),
        ("Heal Hull"@, 0usize),
        ("Heal Shield"@, 0usize),
    ]
}

pub fn heal_metrics() -> (r: Vec<(&'static str, usize)>)
    ensures
        metric_views(r@) == heal_metric_list(),
        forall|i: int| 0 <= i < r@.len() ==> (#[trigger] r@[i]).1 <= 2,
{
    let mut r: Vec<(&'static str, usize)> = Vec::new();
    r.push(("HPS", 0));
    r.push(("Total Heal", 0));
    r.push(("Heal %", 2));
    r.push(("Average Heal", 0));
    r.push(("Critical %", 2));
    r.push(("Ticks", 0));
    r.push(("Ticks/s", 1));
    r.push(("Ticks %", 2));
    r.push(("Heal Hull", 0));
    r.push(("Heal Shield", 0));
    proof {
        reveal_strlit("HPS");
        reveal_strlit("Total Heal");
        reveal_strlit("Heal %");
        reveal_strlit("Average Heal");
        reveal_strlit("Critical %");
        reveal_strlit("Ticks");
        reveal_strlit("Ticks/s");
        reveal_strlit("Ticks %");
        reveal_strlit("Heal Hull");
        reveal_strlit("Heal Shield");
    }
    assert(metric_views(r@) =~= heal_metric_list());
    r
}

/// The per-player columns of the Summary tab.
/// The per-player columns of the Summary tab.
pub open spec fn summary_metric_list() -> Seq<(Seq<char>, usize)> {
    seq![
        ("DPS Dealt"@, 0usize),
        ("Damage Dealt"@, 0usize),
        ("Damage Dealt %"@, 2usize),
        ("Damage Taken"@, 0usize),
        ("Damage Taken %"@, 2usize),
        ("Heal to Others"@, 0usize),
        ("Self Heal"@, 0usize),
        ("Heal Received"@, 0usize),
        ("Combat Duration (s)"@, 1usize),
        ("Active Duration (s)"@, 1usize),
        ("Kills"@, 0usize),
    ]
}

pub fn summary_metrics() -> (r: Vec<(&'static str, usize)>)
    ensures
        metric_views(r@) == summary_metric_list(),
        forall|i: int| 0 <= i < r@.len() ==> (#[trigger] r@[i]).1 <= 2,
{
    let mut r: Vec<(&'static str, usize)> = Vec::new();
    r.push(("DPS Dealt", 0));
    r.push(("Damage Dealt", 0));
    r.push(("Damage Dealt %", 2));
    r.push(("Damage Taken", 0));
    r.push(("Damage Taken %", 2));
    r.push(("Heal to Others", 0));
    r.push(("Self Heal", 0));
    r.push(("Heal Received", 0));
    r.push(("Combat Duration (s)", 1));
    r.push(("Active Duration (s)", 1));
    r.push(("Kills", 0));
    proof {
        reveal_strlit("DPS Dealt");
        reveal_strlit("Damage Dealt");
        reveal_strlit("Damage Dealt %");
        reveal_strlit("Damage Taken");
        reveal_strlit("Damage Taken %");
        reveal_strlit("Heal to Others");
        reveal_strlit("Self Heal");
        reveal_strlit("Heal Received");
        reveal_strlit("Combat Duration (s)");
        reveal_strlit("Active Duration (s)");
        reveal_strlit("Kills");
    }
    assert(metric_views(r@) =~= summary_metric_list());
    r
}

/// The columns of a metric list.
pub fn columns(metrics: &Vec<(&'static str, usize)>) -> (r: Vec<Column>)
    ensures
        r@.len() == metrics@.len(),
        forall|i: int| 0 <= i < r@.len() ==> (#[trigger] r@[i]).header@ == metrics@[i].0@ && r@[i].decimals == metrics@[i].1,
{
    let mut r: Vec<Column> = Vec::new();
    for i in 0..metrics.len()
        invariant
            r@.len() == i,
            forall|k: int| 0 <= k < i ==> (#[trigger] r@[k]).header@ == metrics@[k].0@ && r@[k].decimals == metrics@[k].1,
    {
        r.push(Column { header: metrics[i].0.to_owned(), decimals: metrics[i].1 });
    }
    r
}

} // verus!
