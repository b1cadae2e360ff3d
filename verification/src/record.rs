//! One record of a combat log: splitting a line into its parts, deciding what
//! kind of value it carries, and recognizing the two lines a single shot
//! writes.
//!
//! A record line reads `time::owner,owner id,source,source id,target,target
//! id,ability,internal ability,value type,flags,magnitude,base magnitude`.
//! The two magnitudes are decimal numbers; how they compare with zero is what
//! decides the kind of a record, and that comparison is passed in as a
//! [`NumberClass`] by the caller that reads the numbers.
use vstd::prelude::*;
use crate::text::{from_utf8, chars_of, find, first_occurrence, contains, slice_of, string_of, trim, trim_chars, same, contains_exec, str_contains};
use crate::csv::{csv_fields, parse_csv_line};
use crate::entity::{Entity, EntityView, parse_entity};
use crate::timefmt::{LOG_RECORD_LAYOUT, parsed_time, parse_time};

verus! {

/// How a magnitude compares with zero.
#[derive(Debug, Clone, Copy, PartialEq, Eq, Structural)]
pub enum NumberClass {
    Negative,
    Zero,
    Positive,
    /// Not a number: compares neither below, above nor equal to zero.
    Unordered,
    /// Not a magnitude at all: the text does not parse as a number.
    Invalid,
}

/// The kinds of value a record carries.
#[derive(Debug, Clone, Copy, PartialEq, Eq, Structural)]
pub enum ValueKind {
    /// A hull heal of the magnitude.
    HealHull,
    /// A shield heal of the magnitude.
    HealShield,
    /// Shield damage of the magnitude that kept nothing off the hull.
    ShieldUnprevented,
    /// A shield drain of the magnitude.
    ShieldDrain,
    /// Shield damage of the magnitude that kept the base magnitude off the hull.
    Shield,
    /// Hull damage whose base is the magnitude itself (the base reads zero).
    HullOwnBase,
    /// Hull damage of the magnitude with the base magnitude as its base.
    Hull,
}

/// The magnitudes of a record and what kind of value they make.
#[derive(Debug, Clone, Copy, PartialEq, Eq, Structural)]
pub struct RecordValue {
    pub kind: ValueKind,
    pub value1: NumberClass,
    pub value2: NumberClass,
}

/// Whether a flags field carries `flag`.
pub open spec fn has_flag(flags: Seq<char>, flag: Seq<char>) -> bool {
    contains(flags, flag)
}

/// The kind of value a record with `value_type`, magnitudes classed `v1` and
/// `v2`, and a shield break or not, carries; `None` when a magnitude is not a
/// number. `shield_line_is_damage` settles the one shape the numbers cannot: a
/// shield line with a negative magnitude and a zero base magnitude.
pub open spec fn value_kind(
    value_type: Seq<char>,
    v1: NumberClass,
    v2: NumberClass,
    shield_break: bool,
    shield_line_is_damage: bool,
) -> Option<ValueKind> {
    if v1 == NumberClass::Invalid || v2 == NumberClass::Invalid {
        None
    } else if v1 == NumberClass::Negative && value_type == "HitPoints"@ {
        Some(ValueKind::HealHull)
    } else if value_type == "Shield"@ {
        if v2 == NumberClass::Zero && !shield_break && v1 == NumberClass::Negative {
            if shield_line_is_damage {
                Some(ValueKind::ShieldUnprevented)
            } else {
                Some(ValueKind::HealShield)
            }
        } else if v2 == NumberClass::Zero && !shield_break && v1 == NumberClass::Positive {
            Some(ValueKind::ShieldDrain)
        } else {
            Some(ValueKind::Shield)
        }
    } else if v2 == NumberClass::Zero {
        Some(ValueKind::HullOwnBase)
    } else {
        Some(ValueKind::Hull)
    }
}

pub open spec fn kind_is_damage(kind: ValueKind) -> bool {
    !(kind == ValueKind::HealHull || kind == ValueKind::HealShield)
}

/// Whether every magnitude the value keeps is zero: the damage (or heal) and,
/// for damage, what the shield prevented or the base damage.
pub open spec fn value_all_zero(v: RecordValue) -> bool {
    let z1 = v.value1 == NumberClass::Zero;
    let z2 = v.value2 == NumberClass::Zero;
    match v.kind {
        ValueKind::HealHull | ValueKind::HealShield => z1,
        ValueKind::ShieldUnprevented => z1,
        ValueKind::ShieldDrain => z1,
        ValueKind::Shield => z1 && z2,
        ValueKind::HullOwnBase => z1,
        ValueKind::Hull => z1 && z2,
    }
}

impl RecordValue {
    /// The value of a record, or `None` when a magnitude is not a number.
    pub fn new(
        value_type: &str,
        value1: NumberClass,
        value2: NumberClass,
        shield_break: bool,
        shield_line_is_damage: bool,
    ) -> (r: Option<RecordValue>)
        ensures
            match value_kind(value_type@, value1, value2, shield_break, shield_line_is_damage) {
                Some(k) => r == Some(RecordValue { kind: k, value1, value2 }),
                None => r is None,
            },
    {
        if value1 == NumberClass::Invalid || value2 == NumberClass::Invalid {
            return None;
        }
        let vt = chars_of(value_type);
        let hit_points = chars_of("HitPoints");
        let shield = chars_of("Shield");
        proof {
            reveal_strlit("HitPoints");
            reveal_strlit("Shield");
        }
        let kind = if value1 == NumberClass::Negative && same(&vt, &hit_points) {
            ValueKind::HealHull
        } else if same(&vt, &shield) {
            if value2 == NumberClass::Zero && !shield_break && value1 == NumberClass::Negative {
                if shield_line_is_damage {
                    ValueKind::ShieldUnprevented
                } else {
                    ValueKind::HealShield
                }
            } else if value2 == NumberClass::Zero && !shield_break && value1
                == NumberClass::Positive {
                ValueKind::ShieldDrain
            } else {
                ValueKind::Shield
            }
        } else if value2 == NumberClass::Zero {
            ValueKind::HullOwnBase
        } else {
            ValueKind::Hull
        };
        Some(RecordValue { kind, value1, value2 })
    }

    /// Whether every magnitude the value keeps is zero.
    pub fn is_all_zero(&self) -> (r: bool)
        ensures
            r == value_all_zero(*self),
    {
        let z1 = self.value1 == NumberClass::Zero;
        let z2 = self.value2 == NumberClass::Zero;
        match self.kind {
            ValueKind::HealHull | ValueKind::HealShield => z1,
            ValueKind::ShieldUnprevented => z1,
            ValueKind::ShieldDrain => z1,
            ValueKind::Shield => z1 && z2,
            ValueKind::HullOwnBase => z1,
            ValueKind::Hull => z1 && z2,
        }
    }

    /// Whether the value is damage rather than a heal.
    pub fn is_damage(&self) -> (r: bool)
        ensures
            r == kind_is_damage(self.kind),
    {
        !(self.kind == ValueKind::HealHull || self.kind == ValueKind::HealShield)
    }
}

/// `str::split_once("::")`: the text before the first `::` and after it.
pub open spec fn split_time(line: Seq<char>) -> Option<(Seq<char>, Seq<char>)> {
    if contains(line, "::"@) {
        let i = choose|i: int| first_occurrence(line, "::"@, i);
        Some((line.subrange(0, i), line.subrange(i + 2, line.len() as int)))
    } else {
        None
    }
}

/// Splits `line` at its first `::`.
pub fn split_time_exec(line: &str) -> (r: Option<(Vec<char>, Vec<char>)>)
    ensures
        match (r, split_time(line@)) {
            (None, None) => true,
            (Some((a, b)), Some((x, y))) => a@ == x && b@ == y,
            _ => false,
        },
{
    let chars = chars_of(line);
    let sep = chars_of("::");
    proof {
        reveal_strlit("::");
    }
    match find(&chars, &sep) {
        None => None,
        Some(i) => {
            proof {
                let j = choose|j: int| first_occurrence(line@, "::"@, j);
                crate::text::lemma_first_occurrence_unique(line@, "::"@, i as int, j);
            }
            assert(sep@.len() == 2);
            assert(i + 2 <= chars.len());
            let before = slice_of(&chars, 0, i);
            let after = slice_of(&chars, i + 2, chars.len());
            Some((before, after))
        },
    }
}

/// The text fields of a record line that identify the shot it belongs to and
/// the value it carries.
pub struct LineFields {
    pub timestamp: String,
    pub owner_id: String,
    pub target_id: String,
    pub ability: String,
    pub value_type: String,
    pub flags: String,
    /// The magnitude, trimmed.
    pub value1: String,
    /// The base magnitude, trimmed.
    pub value2: String,
}

/// The fields of a line, as character sequences.
pub struct LineFieldsView {
    pub timestamp: Seq<char>,
    pub owner_id: Seq<char>,
    pub target_id: Seq<char>,
    pub ability: Seq<char>,
    pub value_type: Seq<char>,
    pub flags: Seq<char>,
    pub value1: Seq<char>,
    pub value2: Seq<char>,
}

impl View for LineFields {
    type V = LineFieldsView;

    open spec fn view(&self) -> LineFieldsView {
        LineFieldsView {
            timestamp: self.timestamp@,
            owner_id: self.owner_id@,
            target_id: self.target_id@,
            ability: self.ability@,
            value_type: self.value_type@,
            flags: self.flags@,
            value1: self.value1@,
            value2: self.value2@,
        }
    }
}

/// The fields of `line`, when it has a `::` and at least twelve fields after
/// it.
pub open spec fn line_fields(line: Seq<char>) -> Option<LineFieldsView> {
    match split_time(line) {
        None => None,
        Some((ts, rest)) => {
            let f = csv_fields(rest);
            if f.len() >= 12 {
                Some(
                    LineFieldsView {
                        timestamp: ts,
                        owner_id: f[1],
                        target_id: f[5],
                        ability: f[6],
                        value_type: f[8],
                        flags: f[9],
                        value1: trim(f[10]),
                        value2: trim(f[11]),
                    },
                )
            } else {
                None
            }
        },
    }
}

impl LineFields {
    /// The fields of `line`.
    pub fn of(line: &str) -> (r: Option<LineFields>)
        ensures
            match (r, line_fields(line@)) {
                (None, None) => true,
                (Some(f), Some(v)) => f@ == v,
                _ => false,
            },
    {
        let (ts, rest) = match split_time_exec(line) {
            Some(p) => p,
            None => return None,
        };
        let rest_s = string_of(&rest);
        let fields = parse_csv_line(rest_s.as_str());
        if fields.len() < 12 {
            return None;
        }
        let v1 = chars_of(fields[10].as_str());
        let v2 = chars_of(fields[11].as_str());
        let v1 = trim_chars(&v1);
        let v2 = trim_chars(&v2);
        Some(
            LineFields {
                timestamp: string_of(&ts),
                owner_id: fields[1].clone(),
                target_id: fields[5].clone(),
                ability: fields[6].clone(),
                value_type: fields[8].clone(),
                flags: fields[9].clone(),
                value1: string_of(&v1),
                value2: string_of(&v2),
            },
        )
    }

    /// Whether the line is a shield line that could be damage as well as a
    /// heal: a negative magnitude, a zero base magnitude and no shield break.
    /// `value1` and `value2` class the line's two magnitudes.
    pub fn is_ambiguous_shield(&self, value1: NumberClass, value2: NumberClass) -> (r: bool)
        ensures
            r == (self.value_type@ == "Shield"@ && !contains(self.flags@, "ShieldBreak"@)
                && value1 == NumberClass::Negative && value2 == NumberClass::Zero),
    {
        proof {
            reveal_strlit("Shield");
            reveal_strlit("ShieldBreak");
        }
        let vt = chars_of(self.value_type.as_str());
        let shield = chars_of("Shield");
        same(&vt, &shield) && !str_contains(self.flags.as_str(), "ShieldBreak") && value1
            == NumberClass::Negative && value2 == NumberClass::Zero
    }
}

/// The text after the last comma of `line`, the place of the base magnitude:
/// the cheap first look at whether a line could be an ambiguous shield line.
/// `None` unless the line holds `,Shield,` and a comma.
pub open spec fn shield_line_tail(line: Seq<char>) -> Option<Seq<char>> {
    if contains(line, ",Shield,"@) {
        let i = choose|i: int|
            0 <= i < line.len() && line[i] == ',' && forall|k: int| i < k < line.len() ==> line[k]
                != ',';
        Some(trim(line.subrange(i + 1, line.len() as int)))
    } else {
        None
    }
}

/// [`shield_line_tail`], computed.
pub fn shield_line_tail_exec(line: &str) -> (r: Option<Vec<char>>)
    ensures
        match (r, shield_line_tail(line@)) {
            (None, None) => true,
            (Some(a), Some(b)) => a@ == b,
            _ => false,
        },
{
    let chars = chars_of(line);
    let marker = chars_of(",Shield,");
    proof {
        reveal_strlit(",Shield,");
    }
    if !contains_exec(&chars, &marker) {
        return None;
    }
    // The marker holds a comma, so there is a last one.
    let ghost w = choose|w: int| crate::text::occurs_at(chars@, ",Shield,"@, w);
    assert(chars@[w] == ',') by {
        assert(chars@.subrange(w, w + 8)[0] == chars@[w]);
    }
    let mut i: usize = chars.len();
    while i > 0 && chars[i - 1] != ','
        invariant
            i <= chars@.len(),
            forall|k: int| i <= k < chars@.len() ==> chars@[k] != ',',
            0 <= w < chars@.len(),
            chars@[w] == ',',
        decreases i,
    {
        i -= 1;
    }
    assert(i > 0);
    let last: usize = i - 1;
    proof {
        let j = choose|j: int|
            0 <= j < line@.len() && line@[j] == ',' && forall|k: int| j < k < line@.len()
                ==> line@[k] != ',';
        assert(j == last) by {
            if j < last {
                assert(line@[last as int] != ',');
            } else if j > last {
                assert(line@[j] != ',');
            }
        }
    }
    let tail = slice_of(&chars, last + 1, chars.len());
    Some(trim_chars(&tail))
}

/// What two lines of one shot have in common: the instant, the owner, the
/// target and the ability. The source is left out on purpose: a shot's shield
/// and hull lines may credit different sources (a pet on one of them).
pub struct LineKey {
    pub timestamp: String,
    pub owner_id: String,
    pub target_id: String,
    pub ability: String,
}

impl LineKey {
    /// The key of a line whose fields are `fields`, when both magnitudes are
    /// numbers.
    pub fn of(fields: &LineFields, value1: NumberClass, value2: NumberClass) -> (r: Option<LineKey>)
        ensures
            (value1 == NumberClass::Invalid || value2 == NumberClass::Invalid) ==> r is None,
            !(value1 == NumberClass::Invalid || value2 == NumberClass::Invalid) ==> (r matches Some(k)
                && k.timestamp@ == fields.timestamp@ && k.owner_id@ == fields.owner_id@
                && k.target_id@ == fields.target_id@ && k.ability@ == fields.ability@),
    {
        if value1 == NumberClass::Invalid || value2 == NumberClass::Invalid {
            return None;
        }
        Some(
            LineKey {
                timestamp: fields.timestamp.clone(),
                owner_id: fields.owner_id.clone(),
                target_id: fields.target_id.clone(),
                ability: fields.ability.clone(),
            },
        )
    }

    /// Whether `line` was written at the same instant.
    pub fn is_same_timestamp(&self, line: &str) -> (r: bool)
        ensures
            r == (split_time(line@) matches Some((ts, _)) && ts == self.timestamp@),
    {
        match split_time_exec(line) {
            Some((ts, _)) => {
                let mine = chars_of(self.timestamp.as_str());
                same(&ts, &mine)
            },
            None => false,
        }
    }

    /// Whether a line with `fields` is the damage half of the same shot: same
    /// instant, owner, target and ability, and an actual damage line. A
    /// negative `HitPoints` line is another heal, not the companion.
    pub fn is_companion(&self, fields: &LineFields, value1: NumberClass, value2: NumberClass) -> (r:
        bool)
        ensures
            r == (value1 != NumberClass::Invalid && value2 != NumberClass::Invalid
                && fields.timestamp@ == self.timestamp@ && fields.owner_id@ == self.owner_id@
                && fields.target_id@ == self.target_id@ && fields.ability@ == self.ability@
                && fields.value_type@ != "Shield"@ && !(fields.value_type@ == "HitPoints"@
                && value1 == NumberClass::Negative)),
    {
        proof {
            reveal_strlit("Shield");
            reveal_strlit("HitPoints");
        }
        if value1 == NumberClass::Invalid || value2 == NumberClass::Invalid {
            return false;
        }
        let vt = chars_of(fields.value_type.as_str());
        let shield = chars_of("Shield");
        let hit_points = chars_of("HitPoints");
        crate::text::str_eq(fields.timestamp.as_str(), self.timestamp.as_str())
            && crate::text::str_eq(fields.owner_id.as_str(), self.owner_id.as_str())
            && crate::text::str_eq(fields.target_id.as_str(), self.target_id.as_str())
            && crate::text::str_eq(fields.ability.as_str(), self.ability.as_str())
            && !same(&vt, &shield) && !(same(&vt, &hit_points) && value1
            == NumberClass::Negative)
    }
}

/// Whether a line with fields `f`, its magnitudes classed `v1` and `v2`, is
/// the damage half of the shot `key` names: as [`LineKey::is_companion`]
/// decides.
pub open spec fn companion_of(key: LineKey, f: LineFields, v1: NumberClass, v2: NumberClass) -> bool {
    &&& v1 != NumberClass::Invalid && v2 != NumberClass::Invalid
    &&& f.timestamp@ == key.timestamp@ && f.owner_id@ == key.owner_id@
    &&& f.target_id@ == key.target_id@ && f.ability@ == key.ability@
    &&& f.value_type@ != "Shield"@
    &&& !(f.value_type@ == "HitPoints"@ && v1 == NumberClass::Negative)
}

/// Whether a line read ahead (its fields, none for a line with too few, and
/// its magnitudes' classes) is the damage half of the shot `key` names.
pub open spec fn buffered_companion(key: LineKey, e: (Option<LineFields>, NumberClass, NumberClass)) -> bool {
    match e.0 {
        Some(f) => companion_of(key, f, e.1, e.2),
        None => false,
    }
}

impl LineKey {
    /// Whether one of the lines already read ahead is the damage half of
    /// this shot, which makes the shield line damage without reading on.
    pub fn any_companion(&self, buffered: &Vec<(Option<LineFields>, NumberClass, NumberClass)>) -> (r: bool)
        ensures
            r == exists|i: int| 0 <= i < buffered@.len() && buffered_companion(*self, #[trigger] buffered@[i]),
    {
        let mut i: usize = 0;
        while i < buffered.len()
            invariant
                i <= buffered@.len(),
                forall|k: int| 0 <= k < i ==> !buffered_companion(*self, #[trigger] buffered@[k]),
            decreases buffered.len() - i,
        {
            let entry = &buffered[i];
            if let Some(f) = &entry.0 {
                if self.is_companion(f, entry.1, entry.2) {
                    assert(buffered_companion(*self, buffered@[i as int]));
                    return true;
                }
            }
            i += 1;
        }
        false
    }
}

/// What a line read ahead says about an ambiguous shield line.
#[derive(Debug, Clone, Copy, PartialEq, Eq, Structural)]
pub enum Lookahead {
    /// The damage half of the same shot: the shield line is damage.
    Damage,
    /// A later instant, with no damage half met: the shield line is a heal.
    Heal,
    /// Another line of the same instant: read on.
    ReadOn,
}

/// The step of the look-ahead for a line, as plain values: `same_instant`
/// whether it was written at the key's instant, `companion` whether it is the
/// shot's damage half.
pub open spec fn lookahead_step(same_instant: bool, companion: bool) -> Lookahead {
    if same_instant && companion {
        Lookahead::Damage
    } else if !same_instant {
        Lookahead::Heal
    } else {
        Lookahead::ReadOn
    }
}

impl LineKey {
    /// The step of the look-ahead for a newly read `line` whose fields are
    /// `fields` (none when it has too few), their magnitudes classed `value1`
    /// and `value2`.
    pub fn look_at(&self, line: &str, fields: Option<&LineFields>, value1: NumberClass, value2: NumberClass) -> (r:
        Lookahead)
        ensures
            r == lookahead_step(
                split_time(line@) matches Some((ts, _)) && ts == self.timestamp@,
                match fields {
                    Some(f) => value1 != NumberClass::Invalid && value2 != NumberClass::Invalid
                        && f.timestamp@ == self.timestamp@ && f.owner_id@ == self.owner_id@
                        && f.target_id@ == self.target_id@ && f.ability@ == self.ability@
                        && f.value_type@ != "Shield"@ && !(f.value_type@ == "HitPoints"@
                        && value1 == NumberClass::Negative),
                    None => false,
                },
            ),
    {
        let same_instant = self.is_same_timestamp(line);
        let companion = match fields {
            Some(f) => self.is_companion(f, value1, value2),
            None => false,
        };
        if same_instant && companion {
            Lookahead::Damage
        } else if !same_instant {
            Lookahead::Heal
        } else {
            Lookahead::ReadOn
        }
    }
}

/// A record line taken apart: every party resolved, the texts of the value
/// kept. The magnitudes are left as text for the caller to read as numbers.
pub struct RecordFields {
    /// Milliseconds since 1970 of the record's time.
    pub time: i64,
    pub source: Entity,
    pub target: Entity,
    pub indirect_source: Entity,
    pub value_name: String,
    pub value_type: String,
    /// The flags field, trimmed.
    pub value_flags: String,
    /// The magnitude, trimmed.
    pub value1: String,
    /// The base magnitude, trimmed.
    pub value2: String,
    /// The byte range of the line in the log.
    pub log_pos: Option<(u64, u64)>,
}

/// What a record line holds, as plain values.
pub struct RecordFieldsView {
    pub time: i64,
    pub source: EntityView,
    pub target: EntityView,
    pub indirect_source: EntityView,
    pub value_name: Seq<char>,
    pub value_type: Seq<char>,
    pub value_flags: Seq<char>,
    pub value1: Seq<char>,
    pub value2: Seq<char>,
    pub log_pos: Option<(u64, u64)>,
}

impl View for RecordFields {
    type V = RecordFieldsView;

    open spec fn view(&self) -> RecordFieldsView {
        RecordFieldsView {
            time: self.time,
            source: self.source@,
            target: self.target@,
            indirect_source: self.indirect_source@,
            value_name: self.value_name@,
            value_type: self.value_type@,
            value_flags: self.value_flags@,
            value1: self.value1@,
            value2: self.value2@,
            log_pos: self.log_pos,
        }
    }
}

/// What `line` holds, or `None` when it is not a record: no `::`, a time that
/// does not parse, fewer than twelve fields, or a party that cannot be
/// resolved.
pub open spec fn record_fields(line: Seq<char>, log_pos: Option<(u64, u64)>) -> Option<
    RecordFieldsView,
> {
    match split_time(line) {
        None => None,
        Some((ts, rest)) => match parsed_time(ts + "00"@, LOG_RECORD_LAYOUT@) {
            None => None,
            Some(time) => {
                let f = csv_fields(rest);
                if f.len() < 12 {
                    None
                } else {
                    match (parse_entity(f[0], f[1]), parse_entity(f[2], f[3]), parse_entity(f[4], f[5])) {
                        (Some(source), Some(indirect), Some(target)) => Some(
                            RecordFieldsView {
                                time,
                                source,
                                target,
                                indirect_source: indirect,
                                value_name: f[6],
                                value_type: f[8],
                                value_flags: trim(f[9]),
                                value1: trim(f[10]),
                                value2: trim(f[11]),
                                log_pos,
                            },
                        ),
                        _ => None,
                    }
                }
            },
        },
    }
}

/// Takes a record line apart; `log_pos` is where the line sits in the log.
pub fn parse_from_line(line: &str, log_pos: Option<(u64, u64)>) -> (r: Option<RecordFields>)
    ensures
        match (r, record_fields(line@, log_pos)) {
            (None, None) => true,
            (Some(a), Some(b)) => a@ == b,
            _ => false,
        },
{
    let (ts, rest) = match split_time_exec(line) {
        Some(p) => p,
        None => return None,
    };
    let mut stamp = ts.clone();
    stamp.push('0');
    stamp.push('0');
    proof {
        reveal_strlit("00");
        assert(stamp@ =~= ts@ + "00"@);
    }
    let stamp_s = string_of(&stamp);
    let time = match parse_time(stamp_s.as_str(), LOG_RECORD_LAYOUT) {
        Some(t) => t,
        None => return None,
    };
    let rest_s = string_of(&rest);
    let fields = parse_csv_line(rest_s.as_str());
    if fields.len() < 12 {
        return None;
    }
    let source = match Entity::parse(fields[0].as_str(), fields[1].as_str()) {
        Some(e) => e,
        None => return None,
    };
    let indirect_source = match Entity::parse(fields[2].as_str(), fields[3].as_str()) {
        Some(e) => e,
        None => return None,
    };
    let target = match Entity::parse(fields[4].as_str(), fields[5].as_str()) {
        Some(e) => e,
        None => return None,
    };
    let flags = chars_of(fields[9].as_str());
    let v1 = chars_of(fields[10].as_str());
    let v2 = chars_of(fields[11].as_str());
    let flags = trim_chars(&flags);
    let v1 = trim_chars(&v1);
    let v2 = trim_chars(&v2);
    Some(
        RecordFields {
            time,
            source,
            target,
            indirect_source,
            value_name: fields[6].clone(),
            value_type: fields[8].clone(),
            value_flags: string_of(&flags),
            value1: string_of(&v1),
            value2: string_of(&v2),
            log_pos,
        },
    )
}

/// A record whose value has been worked out.
pub struct Record {
    pub fields: RecordFields,
    pub value: RecordValue,
}

impl RecordFields {
    /// The record these fields make once the magnitudes are classed; `None`
    /// when a magnitude is not a number.
    pub fn into_record(self, value1: NumberClass, value2: NumberClass, shield_line_is_damage: bool) -> (r:
        Option<Record>)
        ensures
            match value_kind(
                self.value_type@,
                value1,
                value2,
                has_flag(self.value_flags@, "ShieldBreak"@),
                shield_line_is_damage,
            ) {
                Some(k) => (r matches Some(rec) && rec.fields@ == self@ && rec.value == (RecordValue {
                    kind: k,
                    value1,
                    value2,
                })),
                None => r is None,
            },
    {
        proof {
            reveal_strlit("ShieldBreak");
        }
        let shield_break = str_contains(self.value_flags.as_str(), "ShieldBreak");
        match RecordValue::new(
            self.value_type.as_str(),
            value1,
            value2,
            shield_break,
            shield_line_is_damage,
        ) {
            Some(value) => Some(Record { fields: self, value }),
            None => None,
        }
    }
}

impl Record {
    /// A player dealt damage.
    pub fn is_player_out_damage(&self) -> (r: bool)
        ensures
            r == (self.fields.source@ is Player && kind_is_damage(self.value.kind)),
    {
        self.fields.source.is_player() && self.value.is_damage()
    }

    /// Nothing happened: every magnitude is zero, or the target was immune.
    pub fn is_immune_or_zero(&self) -> (r: bool)
        ensures
            r == (value_all_zero(self.value) || has_flag(self.fields.value_flags@, "Immune"@)),
    {
        proof {
            reveal_strlit("Immune");
        }
        self.value.is_all_zero() || str_contains(self.fields.value_flags.as_str(), "Immune")
    }

    /// The record names neither a target nor an indirect source.
    pub fn is_self_directed(&self) -> (r: bool)
        ensures
            r == (self.fields.target@ is Empty && self.fields.indirect_source@ is Empty),
    {
        self.fields.target.is_none() && self.fields.indirect_source.is_none()
    }

    /// Damage a party did to itself directly.
    pub fn is_direct_self_damage(&self) -> (r: bool)
        ensures
            r == (self.fields.target@ is Empty && self.fields.indirect_source@ is Empty
                && kind_is_damage(self.value.kind)),
    {
        self.is_self_directed() && self.value.is_damage()
    }
}

/// Why no record came out of the log: it has no more lines, or a line did
/// not parse (the line is kept for the warning).
pub enum RecordError {
    EndReached,
    InvalidRecord(String),
}

/// Splits a stream of characters into log lines. A line ends at a newline
/// that is not inside quotes; a quote switches between inside and outside,
/// and that state carries over from one line to the next. The framer also
/// keeps the byte position in the log, so that each line knows its range:
/// from where the last line ended to just past its own newline.
pub struct LineFramer {
    pub escaped: bool,
    pub line: Vec<char>,
    pub finished: bool,
    /// Where the current line starts in the log.
    pub start: u64,
    /// How far into the log the framer has read.
    pub pos: u64,
}

impl LineFramer {
    pub fn new() -> (r: LineFramer)
        ensures
            !r.escaped && r.line@ == Seq::<char>::empty() && !r.finished,
            r.start == 0 && r.pos == 0,
    {
        LineFramer { escaped: false, line: Vec::new(), finished: false, start: 0, pos: 0 }
    }

    /// Starts the next line if the last one was finished; returns whether it
    /// did. The new line starts where the last one ended.
    pub fn begin_line(&mut self) -> (started: bool)
        ensures
            started == old(self).finished,
            started ==> final(self).line@ == Seq::<char>::empty() && !final(self).finished
                && final(self).escaped == old(self).escaped && final(self).start == old(self).pos
                && final(self).pos == old(self).pos,
            !started ==> *final(self) == *old(self),
    {
        if self.finished {
            self.line.clear();
            self.finished = false;
            self.start = self.pos;
            true
        } else {
            false
        }
    }

    /// Takes the next character of the log, `width` bytes long; returns
    /// whether it completed the line.
    pub fn feed(&mut self, c: char, width: u64) -> (complete: bool)
        requires
            !old(self).finished,
            old(self).pos + width <= u64::MAX,
        ensures
            final(self).pos == old(self).pos + width,
            final(self).start == old(self).start,
            complete == (c == '\n' && !old(self).escaped),
            complete ==> final(self).line@ == old(self).line@ && final(self).finished
                && final(self).escaped == old(self).escaped,
            !complete ==> final(self).line@ == old(self).line@.push(c) && !final(self).finished
                && final(self).escaped == (if c == '"' {
                !old(self).escaped
            } else {
                old(self).escaped
            }),
    {
        self.pos = self.pos + width;
        if c == '\n' && !self.escaped {
            self.finished = true;
            return true;
        }
        self.line.push(c);
        if c == '"' {
            self.escaped = !self.escaped;
        }
        false
    }

    /// The byte range of the current line.
    pub fn range(&self) -> (r: (u64, u64))
        ensures
            r == (self.start, self.pos),
    {
        (self.start, self.pos)
    }
}

/// Where a [`LineFramer`] stands, as plain values.
pub struct FrameState {
    pub escaped: bool,
    pub finished: bool,
    pub start: int,
    pub pos: int,
}

pub open spec fn frame_state(f: LineFramer) -> FrameState {
    FrameState { escaped: f.escaped, finished: f.finished, start: f.start as int, pos: f.pos as int }
}

/// One character `c`, `w` bytes long, taken by a framer at `s`: a new line
/// begins where the last one ended if that one was finished, and the range
/// of the line is given when `c` completes it.
pub open spec fn frame_step(s: FrameState, c: char, w: int) -> (FrameState, Option<(int, int)>) {
    let start = if s.finished {
        s.pos
    } else {
        s.start
    };
    let pos = s.pos + w;
    if c == '\n' && !s.escaped {
        (FrameState { escaped: s.escaped, finished: true, start, pos }, Some((start, pos)))
    } else {
        (
            FrameState {
                escaped: if c == '"' {
                    !s.escaped
                } else {
                    s.escaped
                },
                finished: false,
                start,
                pos,
            },
            None,
        )
    }
}

/// A new framer after taking `chars` (each with its width in bytes), and the
/// ranges of the lines completed on the way, in order.
pub open spec fn framed(chars: Seq<(char, u64)>) -> (FrameState, Seq<(int, int)>)
    decreases chars.len(),
{
    if chars.len() == 0 {
        (FrameState { escaped: false, finished: false, start: 0, pos: 0 }, seq![])
    } else {
        let (s, r) = framed(chars.drop_last());
        let (t, o) = frame_step(s, chars.last().0, chars.last().1 as int);
        (
            t,
            match o {
                Some(x) => r.push(x),
                None => r,
            },
        )
    }
}

/// The bytes `chars` take.
pub open spec fn total_width(chars: Seq<(char, u64)>) -> int
    decreases chars.len(),
{
    if chars.len() == 0 {
        0
    } else {
        total_width(chars.drop_last()) + chars.last().1
    }
}

/// The line ranges tile the log: the first starts at its beginning, each
/// starts where the one before it ended, none runs backwards, and when the
/// log ends with a completed line the last range ends where the log does.
/// So a combat's lines can be cut out of the file by their ranges, and
/// together the ranges cover every byte of whole lines once.
pub proof fn lemma_line_ranges_tile(chars: Seq<(char, u64)>)
    ensures
        ({
            let (s, r) = framed(chars);
            &&& s.pos == total_width(chars)
            &&& r.len() > 0 ==> r[0].0 == 0
            &&& forall|i: int| 0 <= i < r.len() - 1 ==> (#[trigger] r[i + 1]).0 == r[i].1
            &&& forall|i: int| 0 <= i < r.len() ==> (#[trigger] r[i]).0 <= r[i].1
            &&& s.finished ==> r.len() > 0 && r.last().1 == s.pos && s.start == r.last().0
            &&& !s.finished ==> s.start == (if r.len() > 0 {
                r.last().1
            } else {
                0
            }) && s.start <= s.pos
        }),
    decreases chars.len(),
{
    if chars.len() > 0 {
        lemma_line_ranges_tile(chars.drop_last());
        let (s, r) = framed(chars.drop_last());
        let (t, o) = frame_step(s, chars.last().0, chars.last().1 as int);
        let (s2, r2) = framed(chars);
        assert(s2 == t);
        match o {
            Some(x) => {
                assert(r2 == r.push(x));
                assert forall|i: int| 0 <= i < r2.len() - 1 implies (#[trigger] r2[i + 1]).0 == r2[i].1 by {
                    if i + 1 < r.len() {
                        assert(r2[i + 1] == r[i + 1]);
                        assert(r2[i] == r[i]);
                    } else {
                        assert(r2[i + 1] == x);
                        assert(r2[i] == r[i]);
                    }
                }
                assert forall|i: int| 0 <= i < r2.len() implies (#[trigger] r2[i]).0 <= r2[i].1 by {
                    if i < r.len() {
                        assert(r2[i] == r[i]);
                    }
                }
            },
            None => {
                assert(r2 == r);
            },
        }
    }
}

impl LineFramer {
    /// Takes the next character of the log, `width` bytes long, beginning a
    /// new line first when the last one was finished; gives the range of
    /// the line when the character completes it, whose text is then `line`.
    pub fn take_char(&mut self, c: char, width: u64) -> (r: Option<(u64, u64)>)
        requires
            old(self).pos + width <= u64::MAX,
        ensures
            ({
                let (s, o) = frame_step(frame_state(*old(self)), c, width as int);
                &&& frame_state(*final(self)) == s
                &&& match (r, o) {
                    (None, None) => true,
                    (Some((a, b)), Some((x, y))) => a == x && b == y,
                    _ => false,
                }
            }),
            r is Some ==> final(self).line@ == (if old(self).finished {
                Seq::<char>::empty()
            } else {
                old(self).line@
            }),
            r is None ==> final(self).line@ == (if old(self).finished {
                Seq::<char>::empty()
            } else {
                old(self).line@
            }).push(c),
    {
        self.begin_line();
        if self.feed(c, width) {
            Some(self.range())
        } else {
            None
        }
    }
}

/// How many bytes the UTF-8 sequence started by `lead` holds. A stray
/// continuation byte (or another byte no sequence starts with) counts as
/// one, so that decoding it fails.
pub open spec fn utf8_len(lead: u8) -> usize {
    if lead <= 0x7F {
        1
    } else if 0xF0 <= lead <= 0xF7 {
        4
    } else if 0xE0 <= lead <= 0xEF {
        3
    } else if 0xC0 <= lead <= 0xDF {
        2
    } else {
        1
    }
}

/// [`utf8_len`], computed.
pub fn utf8_char_len(lead: u8) -> (r: usize)
    ensures
        r == utf8_len(lead),
{
    if lead <= 0x7F {
        1
    } else if 0xF0 <= lead && lead <= 0xF7 {
        4
    } else if 0xE0 <= lead && lead <= 0xEF {
        3
    } else if 0xC0 <= lead && lead <= 0xDF {
        2
    } else {
        1
    }
}

/// The character the bytes of one UTF-8 sequence encode; nothing when they
/// are not valid UTF-8 (or hold no character).
pub open spec fn decoded_char(bytes: Seq<u8>) -> Option<char> {
    if vstd::utf8::valid_utf8(bytes) && vstd::utf8::decode_utf8(bytes).len() > 0 {
        Some(vstd::utf8::decode_utf8(bytes)[0])
    } else {
        None
    }
}

/// [`decoded_char`], computed: the log is read a character at a time, the
/// lead byte first and then as many more as [`utf8_char_len`] says.
pub fn decode_char(bytes: &[u8]) -> (r: Option<char>)
    ensures
        r == decoded_char(bytes@),
{
    match from_utf8(bytes) {
        Some(s) => {
            let chars = chars_of(s);
            if chars.len() > 0 {
                Some(chars[0])
            } else {
                None
            }
        },
        None => None,
    }
}
} // verus!
