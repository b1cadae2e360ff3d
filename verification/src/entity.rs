//! The parties of a combat log record: players, named non-player entities and
//! the player's own non-player characters.
//!
//! A record names each party twice: a display name, and an id field such as
//! `P[12793028@5473940 Ayel@greyblizzard]` (a player), `C[25
//! Mission_Space_Borg_Queen_Diamond]` (a non-player entity with its internal
//! unique name) or `S[7]`. The id field follows the pattern
//! `(P|C|S)\[digits(@digits)?(\s+[^\]]+)?\]`, searched for anywhere in the
//! field (the leftmost match counts). Digits of any script fit the pattern,
//! but only ASCII ones make a number.
use vstd::prelude::*;
use crate::text::{is_ws, is_ws_exec, chars_of, slice_of, string_of, parse_u64, parse_u64_chars, owned};

verus! {

/// A party of a record.
#[derive(Debug, Clone)]
pub enum Entity {
    /// Nobody: an empty name and an empty or `*` id field.
    Empty,
    /// A player; `full_name` is `name@handle`, `id` and `player_id` the two
    /// numbers of its id field.
    Player { full_name: String, id: u64, player_id: u64 },
    /// A non-player entity with its internal unique name.
    NonPlayer { name: String, id: u64, unique_name: String },
    /// A non-player character.
    NonPlayerCharacter { id: u64, name: String },
}

/// What an [`Entity`] holds, as character sequences.
pub enum EntityView {
    Empty,
    Player { full_name: Seq<char>, id: u64, player_id: u64 },
    NonPlayer { name: Seq<char>, id: u64, unique_name: Seq<char> },
    NonPlayerCharacter { id: u64, name: Seq<char> },
}

impl View for Entity {
    type V = EntityView;

    open spec fn view(&self) -> EntityView {
        match self {
            Entity::Empty => EntityView::Empty,
            Entity::Player { full_name, id, player_id } => EntityView::Player {
                full_name: full_name@,
                id: *id,
                player_id: *player_id,
            },
            Entity::NonPlayer { name, id, unique_name } => EntityView::NonPlayer {
                name: name@,
                id: *id,
                unique_name: unique_name@,
            },
            Entity::NonPlayerCharacter { id, name } => EntityView::NonPlayerCharacter {
                id: *id,
                name: name@,
            },
        }
    }
}

/// The display name of a party: the full name of a player, the name of any
/// other party, nothing for [`EntityView::Empty`].
pub open spec fn entity_name(e: EntityView) -> Option<Seq<char>> {
    match e {
        EntityView::Empty => None,
        EntityView::Player { full_name, .. } => Some(full_name),
        EntityView::NonPlayer { name, .. } => Some(name),
        EntityView::NonPlayerCharacter { name, .. } => Some(name),
    }
}

/// The unique name of a party: the full name of a player, the internal unique
/// name of a non-player entity, nothing otherwise.
pub open spec fn entity_unique_name(e: EntityView) -> Option<Seq<char>> {
    match e {
        EntityView::Empty => None,
        EntityView::Player { full_name, .. } => Some(full_name),
        EntityView::NonPlayer { unique_name, .. } => Some(unique_name),
        EntityView::NonPlayerCharacter { .. } => None,
    }
}

/// The view of an optional borrowed string.
pub open spec fn opt_view(o: Option<&str>) -> Option<Seq<char>> {
    match o {
        Some(s) => Some(s@),
        None => None,
    }
}

/// Whether `c` is a decimal digit of any script (Unicode's `Decimal_Number`
/// category), as the id pattern's digit class takes it. Only the ASCII ones
/// make a number.
pub open spec fn is_decimal_digit(c: char) -> bool {
    let u = c as u32;
    (0x30 <= u && u <= 0x39) || (0x660 <= u && u <= 0x669) || (0x6f0 <= u && u <= 0x6f9) ||
    (0x7c0 <= u && u <= 0x7c9) || (0x966 <= u && u <= 0x96f) || (0x9e6 <= u && u <= 0x9ef) ||
    (0xa66 <= u && u <= 0xa6f) || (0xae6 <= u && u <= 0xaef) || (0xb66 <= u && u <= 0xb6f) ||
    (0xbe6 <= u && u <= 0xbef) || (0xc66 <= u && u <= 0xc6f) || (0xce6 <= u && u <= 0xcef) ||
    (0xd66 <= u && u <= 0xd6f) || (0xde6 <= u && u <= 0xdef) || (0xe50 <= u && u <= 0xe59) ||
    (0xed0 <= u && u <= 0xed9) || (0xf20 <= u && u <= 0xf29) || (0x1040 <= u && u <= 0x1049) ||
    (0x1090 <= u && u <= 0x1099) || (0x17e0 <= u && u <= 0x17e9) || (0x1810 <= u && u <= 0x1819) ||
    (0x1946 <= u && u <= 0x194f) || (0x19d0 <= u && u <= 0x19d9) || (0x1a80 <= u && u <= 0x1a89) ||
    (0x1a90 <= u && u <= 0x1a99) || (0x1b50 <= u && u <= 0x1b59) || (0x1bb0 <= u && u <= 0x1bb9) ||
    (0x1c40 <= u && u <= 0x1c49) || (0x1c50 <= u && u <= 0x1c59) || (0xa620 <= u && u <= 0xa629) ||
    (0xa8d0 <= u && u <= 0xa8d9) || (0xa900 <= u && u <= 0xa909) || (0xa9d0 <= u && u <= 0xa9d9) ||
    (0xa9f0 <= u && u <= 0xa9f9) || (0xaa50 <= u && u <= 0xaa59) || (0xabf0 <= u && u <= 0xabf9) ||
    (0xff10 <= u && u <= 0xff19) || (0x104a0 <= u && u <= 0x104a9) || (0x10d30 <= u && u <= 0x10d39) ||
    (0x10d40 <= u && u <= 0x10d49) || (0x11066 <= u && u <= 0x1106f) || (0x110f0 <= u && u <= 0x110f9) ||
    (0x11136 <= u && u <= 0x1113f) || (0x111d0 <= u && u <= 0x111d9) || (0x112f0 <= u && u <= 0x112f9) ||
    (0x11450 <= u && u <= 0x11459) || (0x114d0 <= u && u <= 0x114d9) || (0x11650 <= u && u <= 0x11659) ||
    (0x116c0 <= u && u <= 0x116c9) || (0x116d0 <= u && u <= 0x116e3) || (0x11730 <= u && u <= 0x11739) ||
    (0x118e0 <= u && u <= 0x118e9) || (0x11950 <= u && u <= 0x11959) || (0x11bf0 <= u && u <= 0x11bf9) ||
    (0x11c50 <= u && u <= 0x11c59) || (0x11d50 <= u && u <= 0x11d59) || (0x11da0 <= u && u <= 0x11da9) ||
    (0x11f50 <= u && u <= 0x11f59) || (0x16130 <= u && u <= 0x16139) || (0x16a60 <= u && u <= 0x16a69) ||
    (0x16ac0 <= u && u <= 0x16ac9) || (0x16b50 <= u && u <= 0x16b59) || (0x16d70 <= u && u <= 0x16d79) ||
    (0x1ccf0 <= u && u <= 0x1ccf9) || (0x1d7ce <= u && u <= 0x1d7ff) || (0x1e140 <= u && u <= 0x1e149) ||
    (0x1e2f0 <= u && u <= 0x1e2f9) || (0x1e4f0 <= u && u <= 0x1e4f9) || (0x1e5f1 <= u && u <= 0x1e5fa) ||
    (0x1e950 <= u && u <= 0x1e959) || (0x1fbf0 <= u && u <= 0x1fbf9)
}

fn is_decimal_digit_exec(c: char) -> (r: bool)
    ensures
        r == is_decimal_digit(c),
{
    let u = c as u32;
    (0x30 <= u && u <= 0x39) || (0x660 <= u && u <= 0x669) || (0x6f0 <= u && u <= 0x6f9) ||
    (0x7c0 <= u && u <= 0x7c9) || (0x966 <= u && u <= 0x96f) || (0x9e6 <= u && u <= 0x9ef) ||
    (0xa66 <= u && u <= 0xa6f) || (0xae6 <= u && u <= 0xaef) || (0xb66 <= u && u <= 0xb6f) ||
    (0xbe6 <= u && u <= 0xbef) || (0xc66 <= u && u <= 0xc6f) || (0xce6 <= u && u <= 0xcef) ||
    (0xd66 <= u && u <= 0xd6f) || (0xde6 <= u && u <= 0xdef) || (0xe50 <= u && u <= 0xe59) ||
    (0xed0 <= u && u <= 0xed9) || (0xf20 <= u && u <= 0xf29) || (0x1040 <= u && u <= 0x1049) ||
    (0x1090 <= u && u <= 0x1099) || (0x17e0 <= u && u <= 0x17e9) || (0x1810 <= u && u <= 0x1819) ||
    (0x1946 <= u && u <= 0x194f) || (0x19d0 <= u && u <= 0x19d9) || (0x1a80 <= u && u <= 0x1a89) ||
    (0x1a90 <= u && u <= 0x1a99) || (0x1b50 <= u && u <= 0x1b59) || (0x1bb0 <= u && u <= 0x1bb9) ||
    (0x1c40 <= u && u <= 0x1c49) || (0x1c50 <= u && u <= 0x1c59) || (0xa620 <= u && u <= 0xa629) ||
    (0xa8d0 <= u && u <= 0xa8d9) || (0xa900 <= u && u <= 0xa909) || (0xa9d0 <= u && u <= 0xa9d9) ||
    (0xa9f0 <= u && u <= 0xa9f9) || (0xaa50 <= u && u <= 0xaa59) || (0xabf0 <= u && u <= 0xabf9) ||
    (0xff10 <= u && u <= 0xff19) || (0x104a0 <= u && u <= 0x104a9) || (0x10d30 <= u && u <= 0x10d39) ||
    (0x10d40 <= u && u <= 0x10d49) || (0x11066 <= u && u <= 0x1106f) || (0x110f0 <= u && u <= 0x110f9) ||
    (0x11136 <= u && u <= 0x1113f) || (0x111d0 <= u && u <= 0x111d9) || (0x112f0 <= u && u <= 0x112f9) ||
    (0x11450 <= u && u <= 0x11459) || (0x114d0 <= u && u <= 0x114d9) || (0x11650 <= u && u <= 0x11659) ||
    (0x116c0 <= u && u <= 0x116c9) || (0x116d0 <= u && u <= 0x116e3) || (0x11730 <= u && u <= 0x11739) ||
    (0x118e0 <= u && u <= 0x118e9) || (0x11950 <= u && u <= 0x11959) || (0x11bf0 <= u && u <= 0x11bf9) ||
    (0x11c50 <= u && u <= 0x11c59) || (0x11d50 <= u && u <= 0x11d59) || (0x11da0 <= u && u <= 0x11da9) ||
    (0x11f50 <= u && u <= 0x11f59) || (0x16130 <= u && u <= 0x16139) || (0x16a60 <= u && u <= 0x16a69) ||
    (0x16ac0 <= u && u <= 0x16ac9) || (0x16b50 <= u && u <= 0x16b59) || (0x16d70 <= u && u <= 0x16d79) ||
    (0x1ccf0 <= u && u <= 0x1ccf9) || (0x1d7ce <= u && u <= 0x1d7ff) || (0x1e140 <= u && u <= 0x1e149) ||
    (0x1e2f0 <= u && u <= 0x1e2f9) || (0x1e4f0 <= u && u <= 0x1e4f9) || (0x1e5f1 <= u && u <= 0x1e5fa) ||
    (0x1e950 <= u && u <= 0x1e959) || (0x1fbf0 <= u && u <= 0x1fbf9)
}

/// First position at or after `i` that is not a decimal digit.
pub open spec fn digits_end(s: Seq<char>, i: int) -> int
    decreases s.len() - i,
{
    if i >= s.len() || i < 0 {
        i
    } else if is_decimal_digit(s[i]) {
        digits_end(s, i + 1)
    } else {
        i
    }
}

/// First position at or after `i` that is not whitespace.
pub open spec fn ws_end(s: Seq<char>, i: int) -> int
    decreases s.len() - i,
{
    if i >= s.len() || i < 0 {
        i
    } else if is_ws(s[i]) {
        ws_end(s, i + 1)
    } else {
        i
    }
}

/// First position at or after `i` that holds `]`, or the end.
pub open spec fn close_at(s: Seq<char>, i: int) -> int
    decreases s.len() - i,
{
    if i >= s.len() || i < 0 {
        i
    } else if s[i] == ']' {
        i
    } else {
        close_at(s, i + 1)
    }
}

/// The groups of a match of the id pattern: the kind letter, the id digits,
/// the player-id digits and the unique name, each as a `(start, end)` range.
pub struct Captures {
    pub kind: char,
    pub id: (int, int),
    pub player_id: Option<(int, int)>,
    pub unique: Option<(int, int)>,
}

/// Where the optional player id ends when the id digits end at `d`, and its
/// range if there is one.
pub open spec fn player_id_part(s: Seq<char>, d: int) -> (Option<(int, int)>, int) {
    if d < s.len() && s[d] == '@' && digits_end(s, d + 1) > d + 1 {
        (Some((d + 1, digits_end(s, d + 1))), digits_end(s, d + 1))
    } else {
        (None, d)
    }
}

/// The optional unique name at `k` and the position of the closing `]`, or
/// `None` when the pattern cannot be completed from `k`.
///
/// The whitespace run is taken greedily; when a `]` follows it at once, one
/// whitespace character is given back to the name (which needs at least one
/// character), as a backtracking matcher does.
pub open spec fn tail_part(s: Seq<char>, k: int) -> Option<(Option<(int, int)>, int)> {
    let w = ws_end(s, k);
    if w > k {
        let c = close_at(s, w);
        if c >= s.len() {
            None
        } else if c > w {
            Some((Some((w, c)), c))
        } else if w - k >= 2 {
            Some((Some((w - 1, w)), w))
        } else {
            None
        }
    } else if k < s.len() && s[k] == ']' {
        Some((None, k))
    } else {
        None
    }
}

/// The match of the id pattern that starts at `p`, if any.
pub open spec fn match_at(s: Seq<char>, p: int) -> Option<Captures> {
    if 0 <= p && p + 1 < s.len() && (s[p] == 'P' || s[p] == 'C' || s[p] == 'S') && s[p + 1]
        == '[' && digits_end(s, p + 2) > p + 2 {
        let d = digits_end(s, p + 2);
        let (pid, k) = player_id_part(s, d);
        match tail_part(s, k) {
            Some((unique, _)) => Some(
                Captures { kind: s[p], id: (p + 2, d), player_id: pid, unique: unique },
            ),
            None => None,
        }
    } else {
        None
    }
}

/// The leftmost match of the id pattern at or after `p`.
pub open spec fn first_match(s: Seq<char>, p: int) -> Option<Captures>
    decreases s.len() - p,
{
    if p < 0 || p >= s.len() {
        None
    } else {
        match match_at(s, p) {
            Some(c) => Some(c),
            None => first_match(s, p + 1),
        }
    }
}

pub open spec fn range_of(s: Seq<char>, r: (int, int)) -> Seq<char> {
    s.subrange(r.0, r.1)
}

/// The party that a display name and an id field describe, or `None` when
/// they describe none.
pub open spec fn parse_entity(name: Seq<char>, idu: Seq<char>) -> Option<EntityView> {
    if name.len() == 0 && (idu.len() == 0 || idu == seq!['*']) {
        Some(EntityView::Empty)
    } else {
        match first_match(idu, 0) {
            None => None,
            Some(c) => match parse_u64(range_of(idu, c.id)) {
                None => None,
                Some(id) => if c.kind == 'P' {
                    match (c.player_id, c.unique) {
                        (Some(pr), Some(ur)) => match parse_u64(range_of(idu, pr)) {
                            Some(pid) => Some(
                                EntityView::Player { full_name: range_of(idu, ur), id: id, player_id: pid },
                            ),
                            None => None,
                        },
                        _ => None,
                    }
                } else if c.kind == 'C' {
                    match c.unique {
                        Some(ur) => Some(
                            EntityView::NonPlayer {
                                name: name,
                                id: id,
                                unique_name: range_of(idu, ur),
                            },
                        ),
                        None => None,
                    }
                } else {
                    Some(EntityView::NonPlayerCharacter { id: id, name: name })
                },
            },
        }
    }
}

proof fn lemma_digits_end(s: Seq<char>, i: int)
    requires
        0 <= i <= s.len(),
    ensures
        i <= digits_end(s, i) <= s.len(),
        forall|k: int| i <= k < digits_end(s, i) ==> is_decimal_digit(#[trigger] s[k]),
    decreases s.len() - i,
{
    if i < s.len() && is_decimal_digit(s[i]) {
        lemma_digits_end(s, i + 1);
    }
}

proof fn lemma_ws_end(s: Seq<char>, i: int)
    requires
        0 <= i <= s.len(),
    ensures
        i <= ws_end(s, i) <= s.len(),
        forall|k: int| i <= k < ws_end(s, i) ==> is_ws(#[trigger] s[k]),
    decreases s.len() - i,
{
    if i < s.len() && is_ws(s[i]) {
        lemma_ws_end(s, i + 1);
    }
}

proof fn lemma_close_at(s: Seq<char>, i: int)
    requires
        0 <= i <= s.len(),
    ensures
        i <= close_at(s, i) <= s.len(),
        close_at(s, i) < s.len() ==> s[close_at(s, i)] == ']',
    decreases s.len() - i,
{
    if i < s.len() && s[i] != ']' {
        lemma_close_at(s, i + 1);
    }
}

fn digits_end_exec(s: &[char], i: usize) -> (r: usize)
    requires
        i <= s@.len(),
    ensures
        r == digits_end(s@, i as int),
{
    let mut k: usize = i;
    while k < s.len() && is_decimal_digit_exec(s[k])
        invariant
            i <= k <= s@.len(),
            digits_end(s@, k as int) == digits_end(s@, i as int),
        decreases s.len() - k,
    {
        k += 1;
    }
    k
}

fn ws_end_exec(s: &[char], i: usize) -> (r: usize)
    requires
        i <= s@.len(),
    ensures
        r == ws_end(s@, i as int),
{
    let mut k: usize = i;
    while k < s.len() && is_ws_exec(s[k])
        invariant
            i <= k <= s@.len(),
            ws_end(s@, k as int) == ws_end(s@, i as int),
        decreases s.len() - k,
    {
        k += 1;
    }
    k
}

fn close_at_exec(s: &[char], i: usize) -> (r: usize)
    requires
        i <= s@.len(),
    ensures
        r == close_at(s@, i as int),
{
    let mut k: usize = i;
    while k < s.len() && s[k] != ']'
        invariant
            i <= k <= s@.len(),
            close_at(s@, k as int) == close_at(s@, i as int),
        decreases s.len() - k,
    {
        k += 1;
    }
    k
}

/// The groups of a match, with plain positions.
pub struct ExecCaptures {
    pub kind: char,
    pub id: (usize, usize),
    pub player_id: Option<(usize, usize)>,
    pub unique: Option<(usize, usize)>,
}

pub open spec fn opt_range(r: Option<(usize, usize)>) -> Option<(int, int)> {
    match r {
        Some((a, b)) => Some((a as int, b as int)),
        None => None,
    }
}

impl ExecCaptures {
    pub open spec fn spec_captures(&self) -> Captures {
        Captures {
            kind: self.kind,
            id: (self.id.0 as int, self.id.1 as int),
            player_id: opt_range(self.player_id),
            unique: opt_range(self.unique),
        }
    }
}

fn match_at_exec(s: &[char], p: usize) -> (r: Option<ExecCaptures>)
    ensures
        match (r, match_at(s@, p as int)) {
            (None, None) => true,
            (Some(a), Some(b)) => a.spec_captures() == b,
            _ => false,
        },
        r matches Some(c) ==> c.id.0 <= c.id.1 <= s@.len() && (c.player_id matches Some(pr)
            ==> pr.0 <= pr.1 <= s@.len()) && (c.unique matches Some(ur) ==> ur.0 <= ur.1
            <= s@.len()),
{
    if !(p < s.len() && s.len() - p > 1) {
        return None;
    }
    let kind = s[p];
    if !((kind == 'P' || kind == 'C' || kind == 'S') && s[p + 1] == '[') {
        return None;
    }
    let d = digits_end_exec(s, p + 2);
    if d <= p + 2 {
        return None;
    }
    proof {
        lemma_digits_end(s@, p + 2);
    }
    let mut pid: Option<(usize, usize)> = None;
    let mut k: usize = d;
    if d < s.len() && s[d] == '@' {
        let e = digits_end_exec(s, d + 1);
        if e > d + 1 {
            pid = Some((d + 1, e));
            k = e;
        }
        proof {
            lemma_digits_end(s@, d + 1);
        }
    }
    assert(player_id_part(s@, d as int) == (opt_range(pid), k as int));
    let w = ws_end_exec(s, k);
    proof {
        lemma_ws_end(s@, k as int);
    }
    let unique: Option<(usize, usize)>;
    if w > k {
        let c = close_at_exec(s, w);
        proof {
            lemma_close_at(s@, w as int);
        }
        if c >= s.len() {
            return None;
        } else if c > w {
            unique = Some((w, c));
        } else if w - k >= 2 {
            unique = Some((w - 1, w));
        } else {
            return None;
        }
    } else if k < s.len() && s[k] == ']' {
        unique = None;
    } else {
        return None;
    }
    Some(ExecCaptures { kind, id: (p + 2, d), player_id: pid, unique })
}

fn first_match_exec(s: &[char]) -> (r: Option<ExecCaptures>)
    ensures
        match (r, first_match(s@, 0)) {
            (None, None) => true,
            (Some(a), Some(b)) => a.spec_captures() == b,
            _ => false,
        },
        r matches Some(c) ==> c.id.0 <= c.id.1 <= s@.len() && (c.player_id matches Some(pr)
            ==> pr.0 <= pr.1 <= s@.len()) && (c.unique matches Some(ur) ==> ur.0 <= ur.1
            <= s@.len()),
{
    let mut p: usize = 0;
    while p < s.len()
        invariant
            p <= s@.len(),
            first_match(s@, p as int) == first_match(s@, 0),
        decreases s.len() - p,
    {
        let m = match_at_exec(s, p);
        if m.is_some() {
            return m;
        }
        p += 1;
    }
    None
}

impl Entity {
    /// The party that `name` and `id_and_unique_name` describe.
    pub fn parse(name: &str, id_and_unique_name: &str) -> (r: Option<Entity>)
        ensures
            match (r, parse_entity(name@, id_and_unique_name@)) {
                (None, None) => true,
                (Some(e), Some(v)) => e@ == v,
                _ => false,
            },
    {
        let idu = chars_of(id_and_unique_name);
        let name_chars = chars_of(name);
        if name_chars.len() == 0 && (idu.len() == 0 || (idu.len() == 1 && idu[0] == '*')) {
            assert(idu@.len() == 1 && idu@[0] == '*' ==> idu@ =~= seq!['*']);
            return Some(Entity::Empty);
        }
        assert(!(idu@.len() == 1 && idu@[0] == '*') ==> idu@ != seq!['*']);
        let caps = match first_match_exec(&idu) {
            Some(c) => c,
            None => return None,
        };
        let id_digits = slice_of(&idu, caps.id.0, caps.id.1);
        let id = match parse_u64_chars(&id_digits) {
            Some(id) => id,
            None => return None,
        };
        if caps.kind == 'P' {
            match (caps.player_id, caps.unique) {
                (Some(pr), Some(ur)) => {
                    let pid_digits = slice_of(&idu, pr.0, pr.1);
                    match parse_u64_chars(&pid_digits) {
                        Some(pid) => {
                            let full = slice_of(&idu, ur.0, ur.1);
                            Some(Entity::Player { full_name: string_of(&full), id, player_id: pid })
                        },
                        None => None,
                    }
                },
                _ => None,
            }
        } else if caps.kind == 'C' {
            match caps.unique {
                Some(ur) => {
                    let unique = slice_of(&idu, ur.0, ur.1);
                    Some(
                        Entity::NonPlayer {
                            name: owned(name),
                            id,
                            unique_name: string_of(&unique),
                        },
                    )
                },
                None => None,
            }
        } else {
            Some(Entity::NonPlayerCharacter { id, name: owned(name) })
        }
    }

    /// The display name.
    pub fn name(&self) -> (r: Option<&str>)
        ensures
            opt_view(r) == entity_name(self@),
    {
        match self {
            Entity::Empty => None,
            Entity::Player { full_name, .. } => Some(full_name.as_str()),
            Entity::NonPlayer { name, .. } => Some(name.as_str()),
            Entity::NonPlayerCharacter { name, .. } => Some(name.as_str()),
        }
    }

    /// The unique name.
    pub fn unique_name(&self) -> (r: Option<&str>)
        ensures
            opt_view(r) == entity_unique_name(self@),
    {
        match self {
            Entity::Empty => None,
            Entity::Player { full_name, .. } => Some(full_name.as_str()),
            Entity::NonPlayer { unique_name, .. } => Some(unique_name.as_str()),
            Entity::NonPlayerCharacter { .. } => None,
        }
    }

    /// Whether the party is a player.
    pub fn is_player(&self) -> (r: bool)
        ensures
            r == (self@ is Player),
    {
        match self {
            Entity::Player { .. } => true,
            _ => false,
        }
    }

    /// Whether there is no party.
    pub fn is_none(&self) -> (r: bool)
        ensures
            r == (self@ is Empty),
    {
        match self {
            Entity::Empty => true,
            _ => false,
        }
    }
}

} // verus!
