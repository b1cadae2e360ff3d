//! Folding STO's rotating combat logs into one `combatlog.log`: the decisions
//! of a consolidation pass.
//!
//! Under Proton the game starts a new `combatlog_<timestamp>.log` whenever it
//! rotates its log. A pass appends every complete rotated file to the
//! consolidated log, oldest first, and mirrors the newest (still written) one
//! from where the last pass left off. The file work itself (appending,
//! reading back, deleting) is done by the caller; this module decides what is
//! appended from where, and keeps the mirror position, which is saved as a
//! two-line state file so that a restart does not append the same bytes again.
use vstd::prelude::*;
use crate::text::{
    from_utf8, contains,
    chars_of, extend, extend_str, find, first_occurrence, owned, parse_u64, parse_u64_chars,
    slice_of, starts_with, ends_with, string_of, trim, trim_chars, u64_to_decimal, decimal,
    all_digits, is_digit, is_ws, next_newline, line_from, lemma_next_newline_at, next_newline_exec,
    line_from_exec,
};
use crate::order::{lex_lt, lex_less, lemma_lex_irreflexive, lemma_lex_asymmetric, lemma_lex_transitive, lemma_lex_total};

verus! {

/// The consolidated file, named as the game names its log on Windows.
pub const TARGET_NAME: &'static str = "combatlog.log";

/// The file that remembers which file is mirrored and how far.
pub const STATE_NAME: &'static str = ".cla-consolidation";

/// Whether a file name is one of the game's rotated logs. The consolidated
/// `combatlog.log` has no `_` after `combatlog` and so never is.
pub open spec fn rotated_name(name: Seq<char>) -> bool {
    "combatlog_"@.is_prefix_of(name) && ".log"@.is_suffix_of(name)
}

/// [`rotated_name`], computed.
pub fn is_rotated_name(name: &str) -> (r: bool)
    ensures
        r == rotated_name(name@),
{
    starts_with(name, "combatlog_") && ends_with(name, ".log")
}

/// The text before the first `sep` in `t`, or all of `t`: what
/// `str::split(sep).next()` gives.
pub open spec fn before_first(t: Seq<char>, sep: Seq<char>) -> Seq<char> {
    if exists|i: int| first_occurrence(t, sep, i) {
        t.take(choose|i: int| first_occurrence(t, sep, i))
    } else {
        t
    }
}

/// The key a rotated file sorts by: the timestamp its first record starts
/// with (the game's `YY:MM:DD:HH:MM:SS.s`, which sorts in time order), taken
/// from the file's first bytes `head`; its name where those bytes are not
/// text or hold no timestamp.
pub open spec fn record_key(head: Seq<u8>, file_name: Seq<char>) -> Seq<char> {
    if vstd::utf8::valid_utf8(head) && before_first(vstd::utf8::decode_utf8(head), "::"@).len() > 0 {
        before_first(vstd::utf8::decode_utf8(head), "::"@)
    } else {
        file_name
    }
}

/// [`record_key`], computed from the first bytes of a file (at most 24 are
/// read) and its name.
pub fn first_record_key(head: &[u8], file_name: &str) -> (r: String)
    ensures
        r@ == record_key(head@, file_name@),
{
    proof {
        reveal_strlit("::");
    }
    match from_utf8(head) {
        Some(text) => {
            let t = chars_of(text);
            let sep = chars_of("::");
            let stamp = match find(&t, &sep) {
                Some(i) => {
                    proof {
                        let c = choose|k: int| first_occurrence(t@, sep@, k);
                        crate::text::lemma_first_occurrence_unique(t@, sep@, i as int, c);
                    }
                    slice_of(&t, 0, i)
                },
                None => {
                    assert(!exists|i: int| first_occurrence(t@, sep@, i));
                    t
                },
            };
            assert(stamp@ == before_first(t@, sep@));
            if stamp.len() > 0 {
                string_of(&stamp)
            } else {
                owned(file_name)
            }
        },
        None => owned(file_name),
    }
}

/// What a saved state file says: the mirrored file's name on its first line
/// and the offset on its second. Nothing when the text has fewer than two
/// lines or the name is empty; an offset that is not a number reads as 0.
pub open spec fn saved_state(s: Seq<char>) -> Option<(Seq<char>, u64)> {
    let k = next_newline(s, 0);
    if s.len() == 0 || k + 1 >= s.len() {
        None
    } else if line_from(s, 0).len() == 0 {
        None
    } else {
        Some(
            (
                line_from(s, 0),
                match parse_u64(trim(line_from(s, k + 1))) {
                    Some(v) => v,
                    None => 0,
                },
            ),
        )
    }
}

/// The state file written for a mirrored file `name` at `offset`.
pub open spec fn state_text_of(name: Seq<char>, offset: u64) -> Seq<char> {
    name + "\n"@ + decimal(offset as nat) + "\n"@
}

proof fn lemma_digits_trimmed(d: Seq<char>)
    requires
        d.len() > 0,
        all_digits(d),
    ensures
        trim(d) == d,
{
    assert(is_digit(d[0]));
    assert(!is_ws(d[0]));
    assert(is_digit(d.last()));
    assert(!is_ws(d.last()));
}

/// A saved state reads back as it was written: a restart resumes mirroring
/// the same file at the same offset, so no byte is appended twice. (A name
/// holding a line break, or ending in a carriage return, would not survive
/// the line split; the game's file names do neither.)
pub proof fn lemma_saved_state_reads_back(name: Seq<char>, offset: u64)
    requires
        name.len() > 0,
        !name.contains('\n'),
        name.last() != '\r',
    ensures
        saved_state(state_text_of(name, offset)) == Some((name, offset)),
{
    reveal_strlit("\n");
    let d = decimal(offset as nat);
    crate::text::lemma_decimal_len(offset as nat);
    crate::text::lemma_decimal_value(offset as nat);
    let s = state_text_of(name, offset);
    let n = name.len() as int;
    assert(s.len() == n + 1 + d.len() + 1);
    assert forall|j: int| 0 <= j < n implies s[j] != '\n' by {
        assert(s[j] == name[j]);
        if name[j] == '\n' {
            assert(name.contains('\n'));
        }
    }
    assert(s[n] == '\n');
    lemma_next_newline_at(s, 0, n);
    assert(s.subrange(0, n) =~= name);
    assert(line_from(s, 0) == name);
    let m = n + 1 + d.len();
    assert forall|j: int| n + 1 <= j < m implies s[j] != '\n' by {
        assert(s[j] == d[j - n - 1]);
        assert(is_digit(d[j - n - 1]));
    }
    assert(s[m] == '\n');
    lemma_next_newline_at(s, n + 1, m);
    assert(s.subrange(n + 1, m) =~= d);
    assert(is_digit(d.last()));
    assert(line_from(s, n + 1) == d);
    lemma_digits_trimmed(d);
    assert(is_digit(d[0]));
    assert(parse_u64(d) == Some(offset));
}

/// Where a pass stands: the directory it works in, the rotated file it
/// mirrors, and how many of that file's bytes are already in the
/// consolidated log.
pub struct Consolidator {
    pub dir: String,
    pub active: Option<String>,
    pub active_offset: u64,
}

pub open spec fn opt_name(o: Option<String>) -> Option<Seq<char>> {
    match o {
        Some(s) => Some(s@),
        None => None,
    }
}

impl Consolidator {
    /// A consolidator for `dir`, picking up the mirror position from the
    /// saved state text where there is one.
    pub fn new(dir: String, saved: Option<&str>) -> (r: Consolidator)
        ensures
            r.dir@ == dir@,
            (opt_name(r.active), r.active_offset) == match saved {
                Some(t) => match saved_state(t@) {
                    Some((name, offset)) => (Some(name), offset),
                    None => (None, 0u64),
                },
                None => (None, 0u64),
            },
    {
        let mut c = Consolidator { dir, active: None, active_offset: 0 };
        if let Some(text) = saved {
            let s = chars_of(text);
            if s.len() > 0 {
                let k = next_newline_exec(&s, 0);
                if k < s.len() && k + 1 < s.len() {
                    let name = line_from_exec(&s, 0);
                    if name.len() > 0 {
                        let off = line_from_exec(&s, k + 1);
                        let off = trim_chars(&off);
                        let offset: u64 = match parse_u64_chars(&off) {
                            Some(v) => v,
                            None => 0,
                        };
                        c.active = Some(string_of(&name));
                        c.active_offset = offset;
                    }
                }
            }
        }
        c
    }

    /// The state to save: the mirrored file's name (empty when there is
    /// none) and the offset, one per line.
    pub fn state_text(&self) -> (r: String)
        ensures
            r@ == state_text_of(
                match opt_name(self.active) {
                    Some(n) => n,
                    None => seq![],
                },
                self.active_offset,
            ),
    {
        let mut out: Vec<char> = Vec::new();
        if let Some(name) = &self.active {
            extend_str(&mut out, name.as_str());
        }
        extend_str(&mut out, "\n");
        let digits = u64_to_decimal(self.active_offset);
        extend(&mut out, &digits);
        extend_str(&mut out, "\n");
        string_of(&out)
    }
}


/// A rotated log as a pass sees it.
pub struct RotatedFile {
    pub name: String,
    /// When it was last written, in nanoseconds since the epoch.
    pub modified: u128,
    /// What it sorts by: [`first_record_key`] of its first bytes.
    pub key: String,
}

/// What a pass does, by positions in the listing it was given: append each
/// complete file from its offset, in this order, deleting each once its bytes
/// are in; then append the active file from `active_from`.
pub struct Pass {
    pub complete: Vec<(usize, u64)>,
    pub active: usize,
    pub active_from: u64,
}

/// `a` is the file the game still writes: the most recently modified one,
/// the last of them in the listing where several tie (as `max_by_key`
/// picks).
pub open spec fn is_latest(files: Seq<RotatedFile>, a: int) -> bool {
    &&& 0 <= a < files.len()
    &&& forall|j: int| 0 <= j < files.len() ==> (#[trigger] files[j]).modified <= files[a].modified
    &&& forall|j: int| a < j < files.len() ==> (#[trigger] files[j]).modified < files[a].modified
}

/// File `i` is complete: it is neither the active file nor the protected one
/// (a file being read directly, which is left alone).
pub open spec fn is_complete(files: Seq<RotatedFile>, a: int, protected: Option<Seq<char>>, i: int) -> bool {
    &&& 0 <= i < files.len()
    &&& files[i].name@ != files[a].name@
    &&& protected != Some(files[i].name@)
}

/// Where appending `name` resumes: past the bytes already mirrored when it is
/// the file mirrored so far, from its start otherwise.
pub open spec fn resume_from(active: Option<Seq<char>>, offset: u64, name: Seq<char>) -> u64 {
    if active == Some(name) {
        offset
    } else {
        0
    }
}

/// The listing order sorts the files' keys: no key sorts before an earlier one.
pub open spec fn sorted_by_key(keys: Seq<Seq<char>>, order: Seq<usize>) -> bool {
    forall|k: int, l: int|
        0 <= k < l < order.len() ==> !lex_lt(keys[#[trigger] order[l] as int], keys[#[trigger] order[k] as int])
}

/// Files with the same key keep their order in the listing.
pub open spec fn stable_by_key(keys: Seq<Seq<char>>, order: Seq<usize>) -> bool {
    forall|k: int, l: int|
        0 <= k < l < order.len() && keys[#[trigger] order[k] as int] == keys[#[trigger] order[l] as int]
            ==> order[k] < order[l]
}

pub open spec fn file_keys(files: Seq<RotatedFile>) -> Seq<Seq<char>> {
    files.map_values(|f: RotatedFile| f.key@)
}

pub open spec fn pass_order(p: Seq<(usize, u64)>) -> Seq<usize> {
    p.map_values(|c: (usize, u64)| c.0)
}

/// `p` is the pass for `files` from state `c`: it mirrors the latest file,
/// resuming where the state says, and appends every complete file exactly
/// once, from its resume point, sorted by key, ties in listing order.
pub open spec fn pass_fits(c: Consolidator, files: Seq<RotatedFile>, protected: Option<Seq<char>>, p: Pass) -> bool {
    let a = p.active as int;
    let order = pass_order(p.complete@);
    &&& is_latest(files, a)
    &&& p.active_from == resume_from(opt_name(c.active), c.active_offset, files[a].name@)
    &&& forall|k: int|
        0 <= k < p.complete@.len() ==> is_complete(files, a, protected, #[trigger] p.complete@[k].0 as int)
            && p.complete@[k].1 == resume_from(opt_name(c.active), c.active_offset, files[p.complete@[k].0 as int].name@)
    &&& forall|i: int| is_complete(files, a, protected, i) ==> #[trigger] order.contains(i as usize)
    &&& forall|k: int, l: int| 0 <= k < l < order.len() ==> #[trigger] order[k] != #[trigger] order[l]
    &&& sorted_by_key(file_keys(files), order)
    &&& stable_by_key(file_keys(files), order)
}

proof fn lemma_insert_in_order(keys: Seq<Seq<char>>, out: Seq<usize>, p: int, x: usize)
    requires
        0 <= p <= out.len(),
        x < keys.len(),
        forall|k: int| 0 <= k < out.len() ==> #[trigger] out[k] < x,
        sorted_by_key(keys, out),
        stable_by_key(keys, out),
        forall|q: int| 0 <= q < p ==> !lex_lt(keys[x as int], keys[#[trigger] out[q] as int]),
        p < out.len() ==> lex_lt(keys[x as int], keys[out[p] as int]),
    ensures
        sorted_by_key(keys, out.insert(p, x)),
        stable_by_key(keys, out.insert(p, x)),
{
    let n = out.insert(p, x);
    out.insert_ensures(p, x);
    assert forall|q: int| p <= q < out.len() implies lex_lt(keys[x as int], keys[#[trigger] out[q] as int]) by {
        if q > p {
            assert(!lex_lt(keys[out[q] as int], keys[out[p] as int]));
            lemma_lex_total(keys[out[p] as int], keys[out[q] as int]);
            if keys[out[p] as int] != keys[out[q] as int] {
                lemma_lex_transitive(keys[x as int], keys[out[p] as int], keys[out[q] as int]);
            }
        }
    }
    assert forall|k: int, l: int| 0 <= k < l < n.len() implies !lex_lt(keys[#[trigger] n[l] as int], keys[#[trigger] n[k] as int]) by {
        if l < p {
        } else if l == p {
        } else if k < p {
            assert(n[l] == out[l - 1]);
        } else if k == p {
            assert(n[l] == out[l - 1]);
            lemma_lex_asymmetric(keys[x as int], keys[out[l - 1] as int]);
        } else {
            assert(n[l] == out[l - 1]);
            assert(n[k] == out[k - 1]);
        }
    }
    assert forall|k: int, l: int| 0 <= k < l < n.len() && keys[#[trigger] n[k] as int] == keys[#[trigger] n[l] as int] implies n[k] < n[l] by {
        if l < p {
        } else if l == p {
        } else if k < p {
            assert(n[l] == out[l - 1]);
        } else if k == p {
            assert(n[l] == out[l - 1]);
            lemma_lex_irreflexive(keys[x as int]);
        } else {
            assert(n[l] == out[l - 1]);
            assert(n[k] == out[k - 1]);
        }
    }
}

/// The entry `e` of a pass appends the file that `c` mirrors.
pub open spec fn merges_file(c: Consolidator, files: Seq<RotatedFile>, e: (usize, u64)) -> bool {
    e.0 < files.len() && opt_name(c.active) == Some(files[e.0 as int].name@)
}

/// A pass with entries `complete` appends the file that `c` mirrors.
pub open spec fn merges_mirrored(c: Consolidator, files: Seq<RotatedFile>, complete: Seq<(usize, u64)>) -> bool {
    exists|k: int| 0 <= k < complete.len() && merges_file(c, files, #[trigger] complete[k])
}

fn name_is(o: &Option<String>, name: &str) -> (r: bool)
    ensures
        r == (opt_name(*o) == Some(name@)),
{
    match o {
        Some(s) => crate::text::str_eq(s.as_str(), name),
        None => false,
    }
}

impl Consolidator {
    /// The pass for the rotated logs `files` (as listed in the directory),
    /// leaving the file named `protected` alone; nothing when there are no
    /// rotated logs.
    pub fn tick(&self, files: &Vec<RotatedFile>, protected: Option<&str>) -> (r: Option<Pass>)
        ensures
            r is None <==> files@.len() == 0,
            r matches Some(p) ==> pass_fits(*self, files@, crate::entity::opt_view(protected), p),
    {
        let n = files.len();
        if n == 0 {
            return None;
        }
        let mut a: usize = 0;
        let mut j: usize = 1;
        while j < n
            invariant
                n == files@.len(),
                0 <= a < j <= n,
                forall|k: int| 0 <= k < j ==> (#[trigger] files@[k]).modified <= files@[a as int].modified,
                forall|k: int| a < k < j ==> (#[trigger] files@[k]).modified < files@[a as int].modified,
            decreases n - j,
        {
            if files[j].modified >= files[a].modified {
                a = j;
            }
            j += 1;
        }
        let ghost prot = crate::entity::opt_view(protected);
        let ghost keys = file_keys(files@);
        let mut key_chars: Vec<Vec<char>> = Vec::new();
        for i in 0..n
            invariant
                n == files@.len(),
                keys == file_keys(files@),
                key_chars@.len() == i,
                forall|k: int| 0 <= k < i ==> (#[trigger] key_chars@[k])@ == keys[k],
        {
            key_chars.push(chars_of(files[i].key.as_str()));
        }
        let mut out: Vec<usize> = Vec::new();
        for i in 0..n
            invariant
                n == files@.len(),
                is_latest(files@, a as int),
                prot == crate::entity::opt_view(protected),
                keys == file_keys(files@),
                key_chars@.len() == n,
                forall|k: int| 0 <= k < n ==> (#[trigger] key_chars@[k])@ == keys[k],
                forall|k: int| 0 <= k < out@.len() ==> #[trigger] out@[k] < i && is_complete(files@, a as int, prot, out@[k] as int),
                forall|m: int| 0 <= m < i && is_complete(files@, a as int, prot, m) ==> #[trigger] out@.contains(m as usize),
                forall|k: int, l: int| 0 <= k < l < out@.len() ==> #[trigger] out@[k] != #[trigger] out@[l],
                sorted_by_key(keys, out@),
                stable_by_key(keys, out@),
        {
            let protected_here = match protected {
                Some(p) => crate::text::str_eq(p, files[i].name.as_str()),
                None => false,
            };
            let is_active = crate::text::str_eq(files[i].name.as_str(), files[a].name.as_str());
            if !is_active && !protected_here {
                let mut p: usize = 0;
                while p < out.len() && !lex_less(&key_chars[i], &key_chars[out[p]])
                    invariant
                        p <= out@.len(),
                        n == files@.len(),
                        i < n,
                        key_chars@.len() == n,
                        forall|k: int| 0 <= k < n ==> (#[trigger] key_chars@[k])@ == keys[k],
                        forall|k: int| 0 <= k < out@.len() ==> #[trigger] out@[k] < i,
                        forall|q: int| 0 <= q < p ==> !lex_lt(keys[i as int], keys[#[trigger] out@[q] as int]),
                    decreases out.len() - p,
                {
                    p += 1;
                }
                proof {
                    lemma_insert_in_order(keys, out@, p as int, i);
                    out@.insert_ensures(p as int, i);
                }
                let ghost before = out@;
                out.insert(p, i);
                proof {
                    assert(out@ =~= before.insert(p as int, i));
                    assert forall|m: int| 0 <= m < i + 1 && is_complete(files@, a as int, prot, m) implies #[trigger] out@.contains(m as usize) by {
                        if m < i {
                            assert(before.contains(m as usize));
                            let q = choose|q: int| 0 <= q < before.len() && before[q] == m as usize;
                            if q < p {
                                assert(out@[q] == m as usize);
                            } else {
                                assert(out@[q + 1] == m as usize);
                            }
                        } else {
                            assert(out@[p as int] == i);
                        }
                    }
                    assert forall|k: int, l: int| 0 <= k < l < out@.len() implies #[trigger] out@[k] != #[trigger] out@[l] by {
                        if k == p {
                            assert(out@[l] == before[l - 1]);
                        } else if l == p {
                        } else {
                            let k0 = if k < p { k } else { k - 1 };
                            let l0 = if l < p { l } else { l - 1 };
                            assert(out@[k] == before[k0]);
                            assert(out@[l] == before[l0]);
                        }
                    }
                }
            } else {
                proof {
                    assert forall|m: int| 0 <= m < i + 1 && is_complete(files@, a as int, prot, m) implies #[trigger] out@.contains(m as usize) by {
                        if m == i {
                            assert(!is_complete(files@, a as int, prot, m));
                        }
                    }
                }
            }
        }
        let ghost order = out@;
        let mut complete: Vec<(usize, u64)> = Vec::new();
        for k in 0..out.len()
            invariant
                order == out@,
                n == files@.len(),
                forall|m: int| 0 <= m < order.len() ==> #[trigger] order[m] < n,
                complete@.len() == k,
                forall|m: int| 0 <= m < k ==> (#[trigger] complete@[m]).0 == order[m]
                    && complete@[m].1 == resume_from(opt_name(self.active), self.active_offset, files@[order[m] as int].name@),
        {
            let idx = out[k];
            let from: u64 = if name_is(&self.active, files[idx].name.as_str()) {
                self.active_offset
            } else {
                0
            };
            complete.push((idx, from));
        }
        assert(pass_order(complete@) =~= order);
        let active_from: u64 = if name_is(&self.active, files[a].name.as_str()) {
            self.active_offset
        } else {
            0
        };
        Some(Pass { complete, active: a, active_from })
    }

    /// After the complete files of `pass` are in: a mirrored file that was
    /// among them is gone, and so is its mirror position. (Positions past the
    /// end of `files` name no file.)
    pub fn merged(&mut self, files: &Vec<RotatedFile>, pass: &Pass)
        ensures
            final(self).dir == old(self).dir,
            merges_mirrored(*old(self), files@, pass.complete@) ==> final(self).active is None
                && final(self).active_offset == 0,
            !merges_mirrored(*old(self), files@, pass.complete@) ==> final(self).active == old(self).active
                && final(self).active_offset == old(self).active_offset,
    {
        let mut k: usize = 0;
        while k < pass.complete.len()
            invariant
                k <= pass.complete@.len(),
                *self == *old(self),
                forall|m: int| 0 <= m < k ==> !merges_file(*self, files@, #[trigger] pass.complete@[m]),
            decreases pass.complete.len() - k,
        {
            let idx = pass.complete[k].0;
            if idx < files.len() && name_is(&self.active, files[idx].name.as_str()) {
                self.active = None;
                self.active_offset = 0;
                return;
            }
            k += 1;
        }
    }

    /// After the active file was mirrored up to `length`, its length.
    pub fn mirrored(&mut self, name: String, length: u64)
        ensures
            final(self).dir == old(self).dir,
            opt_name(final(self).active) == Some(name@),
            final(self).active_offset == length,
    {
        self.active = Some(name);
        self.active_offset = length;
    }
}

/// Neither the file the game still writes nor the protected one is ever
/// among the files a pass appends and then deletes.
pub proof fn lemma_pass_spares_active_and_protected(
    c: Consolidator,
    files: Seq<RotatedFile>,
    protected: Option<Seq<char>>,
    p: Pass,
)
    requires
        pass_fits(c, files, protected, p),
    ensures
        forall|k: int|
            0 <= k < p.complete@.len() ==> files[#[trigger] p.complete@[k].0 as int].name@ != files[p.active as int].name@
                && protected != Some(files[p.complete@[k].0 as int].name@),
{
    assert forall|k: int| 0 <= k < p.complete@.len() implies files[#[trigger] p.complete@[k].0 as int].name@
        != files[p.active as int].name@ && protected != Some(files[p.complete@[k].0 as int].name@) by {
        assert(is_complete(files, p.active as int, protected, p.complete@[k].0 as int));
    }
}

/// What a consolidator holds after reading back the state saved for a
/// mirrored file `name` at `offset` (as [`Consolidator::new`] reads it).
pub open spec fn restored(name: Seq<char>, offset: u64) -> (Option<Seq<char>>, u64) {
    match saved_state(state_text_of(name, offset)) {
        Some((n, o)) => (Some(n), o),
        None => (None, 0u64),
    }
}

/// A restart appends nothing twice. A consolidator that mirrored `name` up
/// to `length`, whether it runs on or is built anew from the state it saved,
/// holds the same position; its next pass, while `name` is still the file
/// the game writes, mirrors it from `length` on and appends no file under
/// that name. (Names hold no line break and do not end in a carriage
/// return, as the game's do not.)
pub proof fn lemma_restart_does_not_append_twice(
    name: Seq<char>,
    length: u64,
    c: Consolidator,
    files: Seq<RotatedFile>,
    protected: Option<Seq<char>>,
    p: Pass,
)
    requires
        name.len() > 0,
        !name.contains('\n'),
        name.last() != '\r',
        (opt_name(c.active), c.active_offset) == restored(name, length) || (opt_name(c.active) == Some(name)
            && c.active_offset == length),
        pass_fits(c, files, protected, p),
        files[p.active as int].name@ == name,
    ensures
        restored(name, length) == (Some(name), length),
        p.active_from == length,
        forall|k: int| 0 <= k < p.complete@.len() ==> files[#[trigger] p.complete@[k].0 as int].name@ != name,
{
    lemma_saved_state_reads_back(name, length);
    lemma_pass_spares_active_and_protected(c, files, protected, p);
}

/// The text of `p` after its last `/`; all of `p` when it has none.
pub open spec fn last_piece(p: Seq<char>) -> Seq<char>
    decreases p.len(),
{
    if p.len() == 0 {
        p
    } else if p.last() == '/' {
        seq![]
    } else {
        last_piece(p.drop_last()).push(p.last())
    }
}

/// A path in plain form, read the same on every platform: no `\` and no `:`
/// (so no other separator and no drive prefix), not starting with `//`
/// (which Windows reads as a network share), and ending in a name that is
/// neither empty, `.` nor `..`. It may be absolute (start with one `/`) or
/// relative.
pub open spec fn plain_path(p: Seq<char>) -> bool {
    &&& !p.contains('\\')
    &&& !p.contains(':')
    &&& !(p.len() > 1 && p[0] == '/' && p[1] == '/')
    &&& last_piece(p).len() > 0
    &&& last_piece(p) != "."@
    &&& last_piece(p) != ".."@
}

/// `Path::file_name`, as text: the last component of the path (none for a
/// path ending in `..` or for a root). Which characters separate components
/// depends on the platform (`/` everywhere, `\` too on Windows, where a
/// path may also start with a prefix), so no more is stated than what holds
/// on every one: the name is a non-empty piece of the path without a `/`,
/// and for a path in [`plain_path`] form it is the text after the last `/`.
#[verifier::external_body]
fn file_name(path: &str) -> (r: Option<String>)
    ensures
        r matches Some(n) ==> n@.len() > 0 && contains(path@, n@) && !n@.contains('/'),
        r matches Some(n) ==> (plain_path(path@) ==> n@ == last_piece(path@)),
        r is None ==> !plain_path(path@),
{
    std::path::Path::new(path).file_name().and_then(|n| n.to_str()).map(|n| n.to_owned())
}

/// Whether a file name is a combat log: the consolidated `combatlog.log` or
/// a rotated `combatlog_<timestamp>.log`.
pub open spec fn combatlog_name(name: Seq<char>) -> bool {
    "combatlog"@.is_prefix_of(name) && ".log"@.is_suffix_of(name)
}

/// [`combatlog_name`], computed.
pub fn is_combatlog_name(name: &str) -> (r: bool)
    ensures
        r == combatlog_name(name@),
{
    starts_with(name, "combatlog") && ends_with(name, ".log")
}

/// Whether `path` names a combat log: its last component does; used to pick
/// a folder's log events. A path it says yes to holds such a name as a piece
/// without a `/`; a path in plain form is one exactly when the text after
/// its last `/` is such a name.
pub fn is_combatlog_path(path: &str) -> (r: bool)
    ensures
        r ==> exists|n: Seq<char>| contains(path@, n) && !n.contains('/') && combatlog_name(n),
        plain_path(path@) ==> (r == combatlog_name(last_piece(path@))),
{
    match file_name(path) {
        Some(n) => is_combatlog_name(n.as_str()),
        None => false,
    }
}

} // verus!
