//! Registering the program with the desktop: the names and contents of its
//! menu entry, which leftover entries are ours to sweep, and the platform tag
//! of its release downloads.
//!
//! The Linux entry is keyed by eight hex digits of a hash of the executable's
//! path, so installs in different places get their own entries while an
//! update in place overwrites its own. Entries under the program's old name
//! are recognised too, so that a renamed build can tidy up after itself.
use vstd::prelude::*;
use std::hash::Hasher;
use std::collections::hash_map::DefaultHasher;
use vstd::std_specs::hash::DefaultHasherAdditionalSpecFns;
use vstd::string::StringSliceAdditionalSpecFns;
use crate::text::{chars_of, extend_str, string_of, starts_with, ends_with, str_eq, slice_of, trim, trim_chars, next_newline, line_from, next_newline_exec, line_from_exec};

verus! {

/// The program's name as the desktop shows it.
pub const APP_NAME: &'static str = "STO-CLARE";

/// The short name of its desktop entries and icon, and its window class.
pub const APP_ID: &'static str = "sto-clare";

/// The name its Start Menu shortcut had before the program was renamed.
pub const LEGACY_APP_NAME: &'static str = "STO Combat Log Analyzer";

/// The short name its entries had before the rename.
pub const LEGACY_APP_ID: &'static str = "sto-cla";

/// Whether `name` is a desktop entry file of `id`: `<id>-….desktop`.
pub open spec fn entry_of(name: Seq<char>, id: Seq<char>) -> bool {
    (id + "-"@).is_prefix_of(name) && ".desktop"@.is_suffix_of(name)
}

/// [`entry_of`], computed.
pub fn is_entry_of(name: &str, id: &str) -> (r: bool)
    ensures
        r == entry_of(name@, id@),
{
    let mut prefix = chars_of(id);
    extend_str(&mut prefix, "-");
    let prefix = string_of(&prefix);
    starts_with(name, prefix.as_str()) && ends_with(name, ".desktop")
}

/// The current name and the old one never claim the same entry, so the sweep
/// cannot take a live entry of one name for a leftover of the other.
pub proof fn lemma_names_do_not_overlap(name: Seq<char>)
    ensures
        !(entry_of(name, APP_ID@) && entry_of(name, LEGACY_APP_ID@)),
{
    reveal_strlit("sto-clare");
    reveal_strlit("sto-cla");
    reveal_strlit("-");
    if entry_of(name, APP_ID@) && entry_of(name, LEGACY_APP_ID@) {
        let a = APP_ID@ + "-"@;
        let b = LEGACY_APP_ID@ + "-"@;
        assert(a[7] == name[7]);
        assert(b[7] == name[7]);
        assert(a[7] == 'r');
        assert(b[7] == '-');
    }
}

/// Whether a file name is a desktop entry this program wrote, under its
/// current name or its old one.
pub fn is_our_entry_name(name: &str) -> (r: bool)
    ensures
        r == (entry_of(name@, APP_ID@) || entry_of(name@, LEGACY_APP_ID@)),
{
    is_entry_of(name, APP_ID) || is_entry_of(name, LEGACY_APP_ID)
}

/// The lower-case hex digit of `d`.
pub open spec fn hex_char(d: nat) -> char {
    if d < 10 {
        ((d + ('0' as u32)) as u32) as char
    } else {
        ((d - 10 + ('a' as u32)) as u32) as char
    }
}

/// The last `n` hex digits of `v`, zero-padded to `n` places.
pub open spec fn hex_padded(v: nat, n: nat) -> Seq<char>
    decreases n,
{
    if n == 0 {
        seq![]
    } else {
        hex_padded(v / 16, (n - 1) as nat).push(hex_char(v % 16))
    }
}

/// An install's id: the first eight of the sixteen zero-padded hex digits of
/// the hash of its executable's path, that is the upper half of the hash.
pub open spec fn install_id_of(hash: u64) -> Seq<char> {
    hex_padded((hash / 0x1_0000_0000) as nat, 8)
}

fn hex_digit(d: u64) -> (c: char)
    requires
        d < 16,
    ensures
        c == hex_char(d as nat),
{
    let c = if d == 0 {
        '0'
    } else if d == 1 {
        '1'
    } else if d == 2 {
        '2'
    } else if d == 3 {
        '3'
    } else if d == 4 {
        '4'
    } else if d == 5 {
        '5'
    } else if d == 6 {
        '6'
    } else if d == 7 {
        '7'
    } else if d == 8 {
        '8'
    } else if d == 9 {
        '9'
    } else if d == 10 {
        'a'
    } else if d == 11 {
        'b'
    } else if d == 12 {
        'c'
    } else if d == 13 {
        'd'
    } else if d == 14 {
        'e'
    } else {
        'f'
    };
    c
}

/// The install id for the hash of the executable's path.
pub fn install_id_from_hash(hash: u64) -> (r: String)
    ensures
        r@ == install_id_of(hash),
{
    let mut m: u64 = hash / 0x1_0000_0000;
    let ghost v = m as nat;
    let mut digits: Vec<char> = Vec::new();
    let mut k: usize = 0;
    while k < 8
        invariant
            k <= 8,
            v == hash / 0x1_0000_0000,
            hex_padded(v, 8) == hex_padded(m as nat, (8 - k) as nat) + digits@,
            digits@.len() == k,
        decreases 8 - k,
    {
        let c = hex_digit(m % 16);
        let ghost rest = (8 - k - 1) as nat;
        proof {
            assert(hex_padded(m as nat, (8 - k) as nat) == hex_padded((m / 16) as nat, rest).push(c));
        }
        let ghost before = digits@;
        digits.insert(0, c);
        proof {
            assert(digits@ =~= seq![c] + before);
            assert(hex_padded((m / 16) as nat, rest).push(c) + before =~= hex_padded((m / 16) as nat, rest)
                + digits@);
        }
        m = m / 16;
        k += 1;
    }
    assert(hex_padded(m as nat, 0) =~= Seq::<char>::empty());
    assert(hex_padded(v, 8) =~= digits@);
    string_of(&digits)
}

/// The hash of an executable's path: `DefaultHasher` fed the path's bytes
/// and then the byte `0xff`, which is how `Hash` for `str` feeds a hasher.
/// The standard library does not fix the hasher's algorithm across releases;
/// its result is the one `DefaultHasher::finish` gives for those writes.
pub open spec fn path_hash_of(exe: &str) -> u64 {
    DefaultHasher::spec_finish(seq![exe.spec_bytes(), seq![0xffu8]])
}

fn path_hash(exe: &str) -> (r: u64)
    ensures
        r == path_hash_of(exe),
{
    let mut hasher = DefaultHasher::new();
    hasher.write(exe.as_bytes());
    let end: [u8; 1] = [0xff];
    let tail: &[u8] = &end;
    assert(tail@ =~= seq![0xffu8]);
    hasher.write(tail);
    assert(hasher@ =~= seq![exe.spec_bytes(), seq![0xffu8]]);
    hasher.finish()
}

/// The id of the install whose executable is at `exe`: eight hex digits of
/// the hash of the path.
pub fn install_id(exe: &str) -> (r: String)
    ensures
        r@ == install_id_of(path_hash_of(exe)),
{
    let h = path_hash(exe);
    install_id_from_hash(h)
}

/// The file name of an install's desktop entry.
pub open spec fn entry_file_name_of(id: Seq<char>) -> Seq<char> {
    APP_ID@ + "-"@ + id + ".desktop"@
}

/// [`entry_file_name_of`], built.
pub fn entry_file_name(id: &str) -> (r: String)
    ensures
        r@ == entry_file_name_of(id@),
{
    let mut out = chars_of(APP_ID);
    extend_str(&mut out, "-");
    extend_str(&mut out, id);
    extend_str(&mut out, ".desktop");
    string_of(&out)
}

/// The desktop entry that starts the program at `exec`, with the icon at
/// `icon`.
pub open spec fn desktop_entry_of(exec: Seq<char>, icon: Seq<char>) -> Seq<char> {
    "[Desktop Entry]\nType=Application\nName="@ + APP_NAME@
        + "\nComment=Analyze Star Trek Online combat logs\nExec=\""@ + exec + "\"\nIcon="@ + icon
        + "\nTerminal=false\nCategories=Game;\nStartupNotify=true\nStartupWMClass="@ + APP_ID@
        + "\n"@
}

/// [`desktop_entry_of`], built.
pub fn desktop_entry(exec: &str, icon: &str) -> (r: String)
    ensures
        r@ == desktop_entry_of(exec@, icon@),
{
    let mut out = chars_of("[Desktop Entry]\nType=Application\nName=");
    extend_str(&mut out, APP_NAME);
    extend_str(&mut out, "\nComment=Analyze Star Trek Online combat logs\nExec=\"");
    extend_str(&mut out, exec);
    extend_str(&mut out, "\"\nIcon=");
    extend_str(&mut out, icon);
    extend_str(&mut out, "\nTerminal=false\nCategories=Game;\nStartupNotify=true\nStartupWMClass=");
    extend_str(&mut out, APP_ID);
    extend_str(&mut out, "\n");
    string_of(&out)
}

/// `s` without the `"` it starts with.
pub open spec fn trim_start_quotes(s: Seq<char>) -> Seq<char>
    decreases s.len(),
{
    if s.len() > 0 && s[0] == '"' {
        trim_start_quotes(s.drop_first())
    } else {
        s
    }
}

/// `s` without the `"` it ends with.
pub open spec fn trim_end_quotes(s: Seq<char>) -> Seq<char>
    decreases s.len(),
{
    if s.len() > 0 && s.last() == '"' {
        trim_end_quotes(s.drop_last())
    } else {
        s
    }
}

/// An `Exec=` value as a path: trimmed, then stripped of the quotes around
/// it (`trim().trim_matches('"')`).
pub open spec fn exec_target(s: Seq<char>) -> Seq<char> {
    trim_end_quotes(trim_start_quotes(trim(s)))
}

fn exec_target_exec(s: &[char]) -> (r: Vec<char>)
    ensures
        r@ == exec_target(s@),
{
    let t = trim_chars(s);
    let mut i: usize = 0;
    assert(t@.subrange(0, t@.len() as int) =~= t@);
    while i < t.len() && t[i] == '"'
        invariant
            i <= t@.len(),
            trim_start_quotes(t@) == trim_start_quotes(t@.subrange(i as int, t@.len() as int)),
        decreases t.len() - i,
    {
        assert(t@.subrange(i as int, t@.len() as int).drop_first() =~= t@.subrange(i + 1, t@.len() as int));
        i += 1;
    }
    let ghost rest = t@.subrange(i as int, t@.len() as int);
    assert(trim_start_quotes(rest) == rest);
    let mut j: usize = t.len();
    while j > i && t[j - 1] == '"'
        invariant
            i <= j <= t@.len(),
            trim_end_quotes(rest) == trim_end_quotes(t@.subrange(i as int, j as int)),
        decreases j,
    {
        assert(t@.subrange(i as int, j as int).drop_last() =~= t@.subrange(i as int, j - 1));
        j -= 1;
    }
    let r = slice_of(&t, i, j);
    assert(trim_end_quotes(r@) == r@);
    r
}

/// The program a desktop entry starts: the value of its first `Exec=` line
/// (lines as `str::lines` splits them), read as a path; nothing when it has
/// no such line.
pub open spec fn entry_exec_from(text: Seq<char>, start: int) -> Option<Seq<char>>
    decreases text.len() + 1 - start,
{
    if start < 0 || start >= text.len() {
        None
    } else if "Exec="@.is_prefix_of(line_from(text, start)) {
        Some(exec_target(line_from(text, start).subrange(5, line_from(text, start).len() as int)))
    } else {
        proof {
            crate::text::lemma_next_newline_bounds(text, start);
        }
        entry_exec_from(text, next_newline(text, start) + 1)
    }
}

/// [`entry_exec_from`] the start of `text`, computed.
pub fn entry_exec(text: &str) -> (r: Option<String>)
    ensures
        opt_chars(r) == entry_exec_from(text@, 0),
{
    proof {
        reveal_strlit("Exec=");
    }
    let s = chars_of(text);
    let key = chars_of("Exec=");
    let mut start: usize = 0;
    while start < s.len()
        invariant
            start <= s@.len(),
            s@ == text@,
            key@ == "Exec="@,
            entry_exec_from(s@, start as int) == entry_exec_from(s@, 0),
        decreases s.len() - start,
    {
        let line = line_from_exec(&s, start);
        proof {
            reveal_strlit("Exec=");
        }
        if crate::text::occurs_at_exec(&line, &key, 0) {
            assert(line@.subrange(0, 5) =~= "Exec="@);
            let value = slice_of(&line, 5, line.len());
            let target = exec_target_exec(&value);
            return Some(string_of(&target));
        }
        proof {
            if "Exec="@.is_prefix_of(line@) {
                assert(line@.subrange(0, 5) =~= "Exec="@);
            }
        }
        let end = next_newline_exec(&s, start);
        if end >= s.len() {
            assert(entry_exec_from(s@, end + 1) is None);
            return None;
        }
        start = end + 1;
    }
    None
}

pub open spec fn opt_chars(o: Option<String>) -> Option<Seq<char>> {
    match o {
        Some(s) => Some(s@),
        None => None,
    }
}

/// Whether the sweep looks at an entry at all: one of ours, other than the
/// entry of this very install.
pub fn is_sweep_candidate(name: &str, our_name: &str) -> (r: bool)
    ensures
        r == (name@ != our_name@ && (entry_of(name@, APP_ID@) || entry_of(name@, LEGACY_APP_ID@))),
{
    !str_eq(name, our_name) && is_our_entry_name(name)
}

/// Whether an entry that starts `exec` is a leftover to remove: it starts
/// this very executable (an old location's entry), or a program that is no
/// longer there. An entry of a different install that still exists stays.
pub fn is_stale(exec: &str, our_exec: &str, exec_exists: bool) -> (r: bool)
    ensures
        r == (exec@ == exec_target(our_exec@) || !exec_exists),
{
    let ours = chars_of(our_exec);
    let ours = exec_target_exec(&ours);
    let e = chars_of(exec);
    crate::text::same(&e, &ours) || !exec_exists
}

/// The platform tag that release downloads carry for the operating system
/// called `os` (as `std::env::consts::OS` names it); none where no release is
/// built.
pub fn platform_target(os: &str) -> (r: Option<&'static str>)
    ensures
        r matches Some(t) ==> (os@ == "linux"@ && t@ == "linux-x86_64"@) || (os@ == "windows"@ && t@
            == "windows-x86_64"@) || (os@ == "macos"@ && t@ == "macos-x86_64"@),
        r is None ==> os@ != "linux"@ && os@ != "windows"@ && os@ != "macos"@,
{
    if str_eq(os, "linux") {
        Some("linux-x86_64")
    } else if str_eq(os, "windows") {
        Some("windows-x86_64")
    } else if str_eq(os, "macos") {
        Some("macos-x86_64")
    } else {
        None
    }
}

} // verus!
