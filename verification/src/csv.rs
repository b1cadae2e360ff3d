//! The comma-separated fields of a combat log record.
//!
//! A field is either plain (everything up to the next comma) or quoted. Inside
//! a quoted field a doubled quote stands for a quote; a field whose quotes run
//! to the end of the line keeps everything after its opening quote; anything
//! else after a closing quote is a syntax error, which ends the fields.
use vstd::prelude::*;
use crate::text::{chars_of, slice_of, string_of};

verus! {

/// Where a plain field that continues at `j` ends: the next comma, or the end.
pub open spec fn plain_end(line: Seq<char>, j: int) -> int
    decreases line.len() - j,
{
    if j >= line.len() {
        line.len() as int
    } else if line[j] == ',' {
        j
    } else {
        plain_end(line, j + 1)
    }
}

/// The rest of a quoted field that opened before `start`: `field` holds what
/// has been read so far and the next character is at `j`. Gives the field and
/// the position after it, or `None` on a syntax error.
///
/// A doubled quote adds one quote to the field.
pub open spec fn quoted_rest(line: Seq<char>, start: int, j: int, field: Seq<char>) -> Option<
    (Seq<char>, int),
>
    decreases line.len() - j,
{
    if j >= line.len() {
        Some((line.subrange(start, line.len() as int), line.len() as int))
    } else if line[j] == '"' {
        if j + 1 >= line.len() {
            Some((line.subrange(start, line.len() as int), line.len() as int))
        } else if line[j + 1] == ',' {
            Some((field, j + 2))
        } else if line[j + 1] == '"' {
            quoted_rest(line, start, j + 2, field.push('"'))
        } else {
            None
        }
    } else {
        quoted_rest(line, start, j + 1, field.push(line[j]))
    }
}

/// The field that starts at `pos`, and where the next one starts; `None` at
/// the end of the line or on a syntax error.
pub open spec fn next_field(line: Seq<char>, pos: int) -> Option<(Seq<char>, int)> {
    if pos < 0 || pos >= line.len() {
        None
    } else if line[pos] == ',' {
        Some((seq![], pos + 1))
    } else if line[pos] == '"' {
        quoted_rest(line, pos + 1, pos + 1, seq![])
    } else {
        let e = plain_end(line, pos + 1);
        if e < line.len() {
            Some((line.subrange(pos, e), e + 1))
        } else {
            Some((line.subrange(pos, line.len() as int), line.len() as int))
        }
    }
}

/// All fields from `pos` on, up to the end of the line or the first syntax
/// error.
pub open spec fn fields_from(line: Seq<char>, pos: int) -> Seq<Seq<char>>
    decreases line.len() - pos,
{
    match next_field(line, pos) {
        None => seq![],
        Some((f, p)) => if pos < p <= line.len() {
            seq![f] + fields_from(line, p)
        } else {
            seq![f]
        },
    }
}

/// The fields of a whole line.
pub open spec fn csv_fields(line: Seq<char>) -> Seq<Seq<char>> {
    fields_from(line, 0)
}

proof fn lemma_plain_end(line: Seq<char>, j: int)
    requires
        0 <= j <= line.len(),
    ensures
        j <= plain_end(line, j) <= line.len(),
        forall|k: int| j <= k < plain_end(line, j) ==> line[k] != ',',
        plain_end(line, j) < line.len() ==> line[plain_end(line, j)] == ',',
    decreases line.len() - j,
{
    if j < line.len() && line[j] != ',' {
        lemma_plain_end(line, j + 1);
    }
}

proof fn lemma_quoted_rest_advances(line: Seq<char>, start: int, j: int, field: Seq<char>)
    requires
        0 <= start <= j,
    ensures
        quoted_rest(line, start, j, field) matches Some((_, p)) ==> j < p <= line.len() || (j
            >= line.len() && p == line.len()),
    decreases line.len() - j,
{
    if j < line.len() {
        if line[j] == '"' {
            if j + 1 < line.len() && line[j + 1] == '"' {
                lemma_quoted_rest_advances(line, start, j + 2, field.push('"'));
            }
        } else {
            lemma_quoted_rest_advances(line, start, j + 1, field.push(line[j]));
        }
    }
}

/// The field that starts at `pos` of `line`, and where the next one starts.
pub fn next_field_exec(line: &[char], pos: usize) -> (r: Option<(Vec<char>, usize)>)
    ensures
        match (r, next_field(line@, pos as int)) {
            (None, None) => true,
            (Some((f, p)), Some((g, q))) => f@ == g && p == q,
            _ => false,
        },
{
    if pos >= line.len() {
        return None;
    }
    let first = line[pos];
    if first == ',' {
        let empty: Vec<char> = Vec::new();
        assert(empty@ =~= seq![]);
        return Some((empty, pos + 1));
    }
    if first == '"' {
        let start: usize = pos + 1;
        let mut field: Vec<char> = Vec::new();
        let mut j: usize = start;
        while j < line.len()
            invariant
                start <= j,
                start == pos + 1,
                pos < line@.len(),
                line@[pos as int] == '"',
                quoted_rest(line@, start as int, j as int, field@) == quoted_rest(
                    line@,
                    start as int,
                    start as int,
                    seq![],
                ),
            decreases line.len() - j,
        {
            let c = line[j];
            if c == '"' {
                if j + 1 >= line.len() {
                    let rest = slice_of(line, start, line.len());
                    return Some((rest, line.len()));
                }
                let c2 = line[j + 1];
                if c2 == ',' {
                    return Some((field, j + 2));
                } else if c2 == '"' {
                    field.push('"');
                    j = j + 2;
                } else {
                    return None;
                }
            } else {
                field.push(c);
                j = j + 1;
            }
        }
        let rest = slice_of(line, start, line.len());
        return Some((rest, line.len()));
    }
    let mut j: usize = pos + 1;
    while j < line.len() && line[j] != ','
        invariant
            pos < j <= line@.len(),
            plain_end(line@, j as int) == plain_end(line@, pos + 1),
        decreases line.len() - j,
    {
        j = j + 1;
    }
    if j < line.len() {
        let f = slice_of(line, pos, j);
        Some((f, j + 1))
    } else {
        let f = slice_of(line, pos, line.len());
        Some((f, line.len()))
    }
}

/// The fields of `line`, up to its end or the first syntax error.
pub fn parse_csv_line(line: &str) -> (r: Vec<String>)
    ensures
        r@.map_values(|s: String| s@) == csv_fields(line@),
{
    let chars = chars_of(line);
    let mut out: Vec<String> = Vec::new();
    let mut pos: usize = 0;
    loop
        invariant
            chars@ == line@,
            pos <= chars@.len(),
            out@.map_values(|s: String| s@) + fields_from(chars@, pos as int) == csv_fields(
                line@,
            ),
        decreases chars@.len() - pos,
    {
        let ghost before = pos as int;
        match next_field_exec(&chars, pos) {
            None => {
                assert(fields_from(chars@, pos as int) == Seq::<Seq<char>>::empty());
                assert(out@.map_values(|s: String| s@) + Seq::<Seq<char>>::empty()
                    =~= out@.map_values(|s: String| s@));
                return out;
            },
            Some((f, p)) => {
                proof {
                    lemma_next_field_advances(chars@, pos as int);
                }
                let ghost old_out = out@;
                out.push(string_of(&f));
                proof {
                    assert(out@.map_values(|s: String| s@) =~= old_out.map_values(|s: String| s@).push(f@));
                    assert(fields_from(chars@, before) == seq![f@] + fields_from(chars@, p as int));
                    assert(old_out.map_values(|s: String| s@) + fields_from(chars@, before)
                        =~= out@.map_values(|s: String| s@) + fields_from(chars@, p as int));
                }
                pos = p;
            },
        }
    }
}

proof fn lemma_next_field_advances(line: Seq<char>, pos: int)
    requires
        0 <= pos,
    ensures
        next_field(line, pos) matches Some((_, p)) ==> pos < p <= line.len(),
{
    if 0 <= pos < line.len() {
        if line[pos] == '"' {
            lemma_quoted_rest_advances(line, pos + 1, pos + 1, seq![]);
        } else if line[pos] != ',' {
            lemma_plain_end(line, pos + 1);
        }
    }
}

} // verus!
