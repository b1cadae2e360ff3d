//! Ordering strings and keeping a sorted list of distinct ones.
//!
//! Strings compare character by character by code point, a proper prefix
//! first: the order `str`'s `Ord` gives, since UTF-8 keeps code-point order in
//! its bytes.
use vstd::prelude::*;
use crate::text::views;

verus! {

/// `a` sorts strictly before `b`.
pub open spec fn lex_lt(a: Seq<char>, b: Seq<char>) -> bool
    decreases a.len(),
{
    if a.len() == 0 {
        b.len() > 0
    } else if b.len() == 0 {
        false
    } else if (a[0] as u32) < (b[0] as u32) {
        true
    } else if a[0] == b[0] {
        lex_lt(a.drop_first(), b.drop_first())
    } else {
        false
    }
}

/// Each string sorts strictly before the next: sorted, no two the same.
pub open spec fn strictly_sorted(s: Seq<Seq<char>>) -> bool {
    forall|i: int, j: int| 0 <= i < j < s.len() ==> lex_lt(#[trigger] s[i], #[trigger] s[j])
}

pub proof fn lemma_lex_irreflexive(a: Seq<char>)
    ensures
        !lex_lt(a, a),
    decreases a.len(),
{
    if a.len() > 0 {
        lemma_lex_irreflexive(a.drop_first());
    }
}

pub proof fn lemma_lex_asymmetric(a: Seq<char>, b: Seq<char>)
    ensures
        !(lex_lt(a, b) && lex_lt(b, a)),
    decreases a.len(),
{
    if a.len() > 0 && b.len() > 0 && a[0] == b[0] {
        lemma_lex_asymmetric(a.drop_first(), b.drop_first());
    }
}

pub proof fn lemma_lex_transitive(a: Seq<char>, b: Seq<char>, c: Seq<char>)
    requires
        lex_lt(a, b),
        lex_lt(b, c),
    ensures
        lex_lt(a, c),
    decreases a.len(),
{
    if a.len() > 0 && b.len() > 0 && c.len() > 0 && a[0] == b[0] && b[0] == c[0] {
        lemma_lex_transitive(a.drop_first(), b.drop_first(), c.drop_first());
    }
}

pub proof fn lemma_lex_total(a: Seq<char>, b: Seq<char>)
    ensures
        a != b ==> lex_lt(a, b) || lex_lt(b, a),
    decreases a.len(),
{
    if a.len() > 0 && b.len() > 0 {
        if a[0] == b[0] {
            lemma_lex_total(a.drop_first(), b.drop_first());
            if a.drop_first() == b.drop_first() {
                assert(a =~= seq![a[0]] + a.drop_first());
                assert(b =~= seq![b[0]] + b.drop_first());
            }
        } else {
            vstd::utf8::char_u32_cast(a[0], a[0] as u32);
            vstd::utf8::char_u32_cast(b[0], b[0] as u32);
            assert((a[0] as u32) != (b[0] as u32));
        }
    } else if a.len() == 0 && b.len() == 0 {
        assert(a =~= b);
    }
}

/// Whether `a` sorts strictly before `b`.
pub fn lex_less(a: &[char], b: &[char]) -> (r: bool)
    ensures
        r == lex_lt(a@, b@),
{
    let mut i: usize = 0;
    assert(a@.subrange(0, a@.len() as int) =~= a@);
    assert(b@.subrange(0, b@.len() as int) =~= b@);
    while i < a.len() && i < b.len() && a[i] == b[i]
        invariant
            i <= a@.len(),
            i <= b@.len(),
            lex_lt(a@.subrange(i as int, a@.len() as int), b@.subrange(i as int, b@.len() as int))
                == lex_lt(a@, b@),
        decreases a.len() - i,
    {
        let ghost sa = a@.subrange(i as int, a@.len() as int);
        let ghost sb = b@.subrange(i as int, b@.len() as int);
        assert(sa.drop_first() =~= a@.subrange(i + 1, a@.len() as int));
        assert(sb.drop_first() =~= b@.subrange(i + 1, b@.len() as int));
        i += 1;
    }
    if i >= a.len() {
        i < b.len()
    } else if i >= b.len() {
        false
    } else {
        (a[i] as u32) < (b[i] as u32)
    }
}

/// Puts `x` into the strictly sorted `v`, unless it is there already.
pub fn insert_sorted(v: &mut Vec<String>, x: String)
    requires
        strictly_sorted(views(old(v)@)),
    ensures
        strictly_sorted(views(final(v)@)),
        forall|s: Seq<char>| #[trigger] views(final(v)@).contains(s) <==> (views(old(
            v,
        )@).contains(s) || s == x@),
{
    let ghost before = views(v@);
    let xc = crate::text::chars_of(x.as_str());
    let mut k: usize = 0;
    while k < v.len()
        invariant
            before == views(v@),
            strictly_sorted(before),
            k <= v@.len(),
            xc@ == x@,
            forall|j: int| 0 <= j < k ==> lex_lt(#[trigger] before[j], x@),
        ensures
            k <= v@.len(),
            forall|j: int| 0 <= j < k ==> lex_lt(#[trigger] before[j], x@),
            k < v@.len() ==> !lex_lt(before[k as int], x@),
        decreases v.len() - k,
    {
        let cur = crate::text::chars_of(v[k].as_str());
        if !lex_less(&cur, &xc) {
            break;
        }
        k += 1;
    }
    // Here every element before `k` sorts before `x`, and the one at `k` (if
    // any) does not.
    if k < v.len() {
        let cur = crate::text::chars_of(v[k].as_str());
        if crate::text::same(&cur, &xc) {
            proof {
                assert(before[k as int] == x@);
                assert(before.contains(x@));
            }
            return;
        }
        proof {
            lemma_lex_total(before[k as int], x@);
        }
    }
    assert(k < before.len() ==> lex_lt(x@, before[k as int]));
    v.insert(k, x);
    proof {
        let after = views(v@);
        assert(after =~= before.insert(k as int, x@));
        assert forall|i: int, j: int| 0 <= i < j < after.len() implies lex_lt(
            #[trigger] after[i],
            #[trigger] after[j],
        ) by {
            if j < k {
            } else if i < k && j == k {
            } else if i < k && j > k {
                if j > k + 1 {
                    lemma_lex_transitive(x@, before[k as int], before[j - 1]);
                }
                lemma_lex_transitive(after[i], x@, after[j]);
            } else if i == k {
                if j > k + 1 {
                    lemma_lex_transitive(x@, before[k as int], before[j - 1]);
                }
            } else {
            }
        }
        assert forall|s: Seq<char>| #[trigger] after.contains(s) <==> (before.contains(s) || s
            == x@) by {
            if after.contains(s) {
                let i = choose|i: int| 0 <= i < after.len() && after[i] == s;
                if i < k {
                    assert(before[i] == s);
                } else if i > k {
                    assert(before[i - 1] == s);
                }
            }
            if before.contains(s) {
                let i = choose|i: int| 0 <= i < before.len() && before[i] == s;
                if i < k {
                    assert(after[i] == s);
                } else {
                    assert(after[i + 1] == s);
                }
            }
            if s == x@ {
                assert(after[k as int] == s);
            }
        }
    }
}

/// The strings of `v`, sorted, each once.
pub fn sorted_distinct(v: Vec<String>) -> (r: Vec<String>)
    ensures
        strictly_sorted(views(r@)),
        forall|s: Seq<char>| #[trigger] views(r@).contains(s) <==> views(v@).contains(s),
{
    let ghost all = views(v@);
    let mut r: Vec<String> = Vec::new();
    let mut i: usize = 0;
    while i < v.len()
        invariant
            i <= v@.len(),
            all == views(v@),
            strictly_sorted(views(r@)),
            forall|s: Seq<char>| #[trigger] views(r@).contains(s) <==> all.take(
                i as int,
            ).contains(s),
        decreases v.len() - i,
    {
        insert_sorted(&mut r, v[i].clone());
        proof {
            assert forall|s: Seq<char>| #[trigger] all.take(i + 1).contains(s) <==> (all.take(
                i as int,
            ).contains(s) || s == all[i as int]) by {
                if all.take(i + 1).contains(s) {
                    let t = all.take(i + 1);
                    let j = choose|j: int| 0 <= j < t.len() && t[j] == s;
                    if j < i {
                        assert(all.take(i as int)[j] == s);
                    }
                }
                if all.take(i as int).contains(s) {
                    let t = all.take(i as int);
                    let j = choose|j: int| 0 <= j < t.len() && t[j] == s;
                    assert(all.take(i + 1)[j] == s);
                }
                if s == all[i as int] {
                    assert(all.take(i + 1)[i as int] == s);
                }
            }
        }
        i += 1;
    }
    assert(all.take(v@.len() as int) =~= all);
    r
}

/// Each number is smaller than the next: sorted, no two the same.
pub open spec fn strictly_increasing(s: Seq<usize>) -> bool {
    forall|i: int, j: int| 0 <= i < j < s.len() ==> #[trigger] s[i] < #[trigger] s[j]
}

/// The numbers of `v`, sorted, each once (what `sort_unstable` and `dedup`
/// leave of them).
pub fn sorted_unique(v: &Vec<usize>) -> (r: Vec<usize>)
    ensures
        strictly_increasing(r@),
        forall|x: usize| #[trigger] r@.contains(x) <==> v@.contains(x),
{
    let mut r: Vec<usize> = Vec::new();
    for i in 0..v.len()
        invariant
            strictly_increasing(r@),
            forall|x: usize| #[trigger] r@.contains(x) <==> v@.take(i as int).contains(x),
    {
        let x = v[i];
        let mut k: usize = 0;
        while k < r.len() && r[k] < x
            invariant
                k <= r@.len(),
                forall|j: int| 0 <= j < k ==> #[trigger] r@[j] < x,
            decreases r.len() - k,
        {
            k += 1;
        }
        let ghost before = r@;
        if !(k < r.len() && r[k] == x) {
            r.insert(k, x);
            proof {
                assert(r@ =~= before.insert(k as int, x));
                before.insert_ensures(k as int, x);
                assert forall|a: int, b: int| 0 <= a < b < r@.len() implies #[trigger] r@[a] < #[trigger] r@[b] by {
                    if b < k {
                    } else if a < k && b == k {
                    } else if a < k {
                        assert(r@[b] == before[b - 1]);
                        if b - 1 > k {
                            assert(before[k as int] < before[b - 1]);
                        }
                    } else if a == k {
                        assert(r@[b] == before[b - 1]);
                        if b - 1 > k {
                            assert(before[k as int] < before[b - 1]);
                        }
                    } else {
                        assert(r@[a] == before[a - 1]);
                        assert(r@[b] == before[b - 1]);
                    }
                }
            }
        }
        proof {
            assert(v@.take(i + 1) =~= v@.take(i as int).push(x));
            assert forall|y: usize| #[trigger] r@.contains(y) <==> v@.take(i + 1).contains(y) by {
                let t = v@.take(i as int);
                if t.push(x).contains(y) {
                    let j = choose|j: int| 0 <= j < t.push(x).len() && t.push(x)[j] == y;
                    if j < t.len() {
                        assert(t[j] == y);
                        assert(t.contains(y));
                    }
                }
                if t.contains(y) {
                    let j = choose|j: int| 0 <= j < t.len() && t[j] == y;
                    assert(t.push(x)[j] == y);
                }
                if y == x {
                    assert(t.push(x)[t.len() as int] == y);
                }
                if before.contains(y) {
                    let j = choose|j: int| 0 <= j < before.len() && before[j] == y;
                    if r@ != before {
                        if j < k {
                            assert(r@[j] == y);
                        } else {
                            assert(r@[j + 1] == y);
                        }
                    }
                }
                if r@.contains(y) && r@ != before {
                    let j = choose|j: int| 0 <= j < r@.len() && r@[j] == y;
                    if j < k {
                        assert(before[j] == y);
                    } else if j > k {
                        assert(before[j - 1] == y);
                    }
                }
                if y == x {
                    if r@ != before {
                        assert(r@[k as int] == y);
                    } else {
                        assert(before[k as int] == y);
                    }
                }
            }
        }
    }
    assert(v@.take(v@.len() as int) =~= v@);
    r
}

} // verus!
