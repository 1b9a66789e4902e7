use vstd::prelude::*;
use vstd::seq_lib::{to_multiset_build, to_multiset_insert};
use crate::text::chars_of;

verus! {

/// `a` sorts before `b` in lexicographic order of code points (the order of `str::cmp`).
pub open spec fn lex_lt(a: Seq<char>, b: Seq<char>) -> bool
    decreases a.len(),
{
    if a.len() == 0 {
        b.len() > 0
    } else if b.len() == 0 {
        false
    } else if a[0] != b[0] {
        a[0] < b[0]
    } else {
        lex_lt(a.drop_first(), b.drop_first())
    }
}

/// Of two different strings exactly one sorts first.
pub proof fn lemma_lex_trichotomy(a: Seq<char>, b: Seq<char>)
    ensures
        a != b ==> (lex_lt(a, b) || lex_lt(b, a)),
        !(lex_lt(a, b) && lex_lt(b, a)),
        !lex_lt(a, a),
    decreases a.len(),
{
    if a.len() > 0 && b.len() > 0 {
        lemma_lex_trichotomy(a.drop_first(), b.drop_first());
        if a[0] == b[0] && a != b {
            assert(a =~= seq![a[0]] + a.drop_first());
            assert(b =~= seq![b[0]] + b.drop_first());
        }
        lemma_lex_trichotomy(a.drop_first(), a.drop_first());
    } else if a.len() > 0 {
        lemma_lex_trichotomy(a.drop_first(), a.drop_first());
    } else if b.len() == 0 {
        assert(a =~= b);
    }
}

/// Lexicographic order is transitive.
pub proof fn lemma_lex_transitive(a: Seq<char>, b: Seq<char>, c: Seq<char>)
    requires
        lex_lt(a, b),
        lex_lt(b, c),
    ensures
        lex_lt(a, c),
    decreases a.len(),
{
    if a.len() > 0 && b.len() > 0 && c.len() > 0 && a[0] == b[0] && b[0] == c[0] {
        lemma_lex_transitive(a.drop_first(), b.drop_first(), c.drop_first());
    }
}

proof fn lemma_lex_skip(a: Seq<char>, b: Seq<char>, i: int)
    requires
        0 <= i <= a.len(),
        i <= b.len(),
        a.take(i) == b.take(i),
    ensures
        lex_lt(a, b) == lex_lt(a.skip(i), b.skip(i)),
    decreases i,
{
    if i > 0 {
        assert(a[0] == a.take(i)[0] && b[0] == b.take(i)[0]);
        assert(a.drop_first().take(i - 1) =~= a.take(i).drop_first());
        assert(b.drop_first().take(i - 1) =~= b.take(i).drop_first());
        lemma_lex_skip(a.drop_first(), b.drop_first(), i - 1);
        assert(a.drop_first().skip(i - 1) =~= a.skip(i));
        assert(b.drop_first().skip(i - 1) =~= b.skip(i));
    } else {
        assert(a.skip(0) =~= a);
        assert(b.skip(0) =~= b);
    }
}

/// Whether `a` sorts before `b` (`a < b` for strings).
pub fn lex_less(a: &str, b: &str) -> (res: bool)
    ensures
        res == lex_lt(a@, b@),
{
    let x: Vec<char> = chars_of(a);
    let y: Vec<char> = chars_of(b);
    let mut i: usize = 0;
    while i < x.len() && i < y.len() && x[i] == y[i]
        invariant
            x@ == a@,
            y@ == b@,
            i <= x@.len(),
            i <= y@.len(),
            a@.take(i as int) == b@.take(i as int),
        decreases x@.len() - i,
    {
        assert(a@.take(i + 1) =~= a@.take(i as int).push(a@[i as int]));
        assert(b@.take(i + 1) =~= b@.take(i as int).push(b@[i as int]));
        i = i + 1;
    }
    proof {
        lemma_lex_skip(a@, b@, i as int);
        let s: Seq<char> = a@.skip(i as int);
        let u: Seq<char> = b@.skip(i as int);
        if s.len() > 0 && u.len() > 0 {
            assert(s[0] == a@[i as int] && u[0] == b@[i as int]);
        }
    }
    if i < x.len() && i < y.len() {
        x[i] < y[i]
    } else {
        i == x.len() && i < y.len()
    }
}

} // verus!

verus! {

/// The strings are in strictly ascending order.
pub open spec fn strictly_ascending(v: Seq<Seq<char>>) -> bool {
    forall|a: int, b: int| 0 <= a < b < v.len() ==> lex_lt(v[a], v[b])
}

/// The distinct strings of `v` in ascending order (`sort` + `dedup`).
pub fn sorted_distinct(v: &Vec<String>) -> (res: Vec<String>)
    ensures
        strictly_ascending(res.deep_view()),
        forall|x: Seq<char>| res.deep_view().contains(x) <==> v.deep_view().contains(x),
{
    let mut res: Vec<String> = Vec::new();
    let mut i: usize = 0;
    while i < v.len()
        invariant
            i <= v@.len(),
            strictly_ascending(res.deep_view()),
            forall|x: Seq<char>| res.deep_view().contains(x) <==> v.deep_view().take(i as int).contains(x),
        decreases v@.len() - i,
    {
        let x: &String = &v[i];
        let mut pos: usize = 0;
        while pos < res.len() && lex_less(res[pos].as_str(), x.as_str())
            invariant
                pos <= res@.len(),
                forall|k: int| 0 <= k < pos ==> lex_lt(#[trigger] res.deep_view()[k], x@),
            decreases res@.len() - pos,
        {
            pos = pos + 1;
        }
        let ghost before = res.deep_view();
        assert(v.deep_view().take(i + 1) =~= v.deep_view().take(i as int).push(x@));
        let present: bool = pos < res.len() && res[pos] == *x;
        if !present {
            res.insert(pos, x.clone());
            proof {
                let after = res.deep_view();
                assert(after =~= before.insert(pos as int, x@));
                if pos < before.len() {
                    lemma_lex_trichotomy(before[pos as int], x@);
                    assert(lex_lt(x@, before[pos as int]));
                }
                assert forall|a: int, b: int| 0 <= a < b < after.len() implies lex_lt(after[a], after[b]) by {
                    if a == pos && b - 1 > pos {
                        lemma_lex_transitive(x@, before[pos as int], before[b - 1]);
                    } else if a < pos && pos < b {
                        lemma_lex_transitive(before[a], x@, before[pos as int]);
                        if b - 1 > pos {
                            lemma_lex_transitive(before[a], before[pos as int], before[b - 1]);
                        }
                    }
                }
                assert forall|y: Seq<char>| after.contains(y) <==> (before.contains(y) || y == x@) by {
                    if after.contains(y) {
                        let k = choose|k: int| 0 <= k < after.len() && after[k] == y;
                        if k < pos { assert(before[k] == y); } else if k > pos { assert(before[k - 1] == y); }
                    }
                    if before.contains(y) {
                        let k = choose|k: int| 0 <= k < before.len() && before[k] == y;
                        if k < pos { assert(after[k] == y); } else { assert(after[k + 1] == y); }
                    }
                    if y == x@ { assert(after[pos as int] == y); }
                }
            }
        }
        proof {
            assert forall|y: Seq<char>| res.deep_view().contains(y) <==> v.deep_view().take(i + 1).contains(y) by {
                let t = v.deep_view().take(i as int);
                if t.push(x@).contains(y) && y != x@ {
                    let k = choose|k: int| 0 <= k < t.push(x@).len() && t.push(x@)[k] == y;
                    assert(t[k] == y);
                }
                if t.contains(y) {
                    let k = choose|k: int| 0 <= k < t.len() && t[k] == y;
                    assert(t.push(x@)[k] == y);
                }
                assert(t.push(x@)[t.len() as int] == x@);
                if present && y == x@ {
                    assert(before[pos as int] == x@);
                }
            }
        }
        i = i + 1;
    }
    assert(v.deep_view().take(v@.len() as int) =~= v.deep_view());
    res
}

} // verus!

verus! {

/// The strings are in ascending order (equal neighbours allowed).
pub open spec fn ascending(v: Seq<Seq<char>>) -> bool {
    forall|a: int, b: int| 0 <= a < b < v.len() ==> !lex_lt(v[b], v[a])
}

/// `v` in ascending order (`sort`).
pub fn sort_strings(v: &Vec<String>) -> (res: Vec<String>)
    ensures
        ascending(res.deep_view()),
        res.deep_view().to_multiset() == v.deep_view().to_multiset(),
{
    let mut res: Vec<String> = Vec::new();
    let mut i: usize = 0;
    assert(v.deep_view().take(0) =~= res.deep_view());
    while i < v.len()
        invariant
            i <= v@.len(),
            ascending(res.deep_view()),
            res.deep_view().to_multiset() == v.deep_view().take(i as int).to_multiset(),
        decreases v@.len() - i,
    {
        let x: &String = &v[i];
        let mut pos: usize = 0;
        while pos < res.len() && !lex_less(x.as_str(), res[pos].as_str())
            invariant
                pos <= res@.len(),
                forall|k: int| 0 <= k < pos ==> !lex_lt(x@, #[trigger] res.deep_view()[k]),
            decreases res@.len() - pos,
        {
            pos = pos + 1;
        }
        let ghost before = res.deep_view();
        res.insert(pos, x.clone());
        proof {
            let after = res.deep_view();
            assert(after =~= before.insert(pos as int, x@));
            to_multiset_insert(before, pos as int, x@);
            assert(v.deep_view().take(i + 1) =~= v.deep_view().take(i as int).push(x@));
            to_multiset_build(v.deep_view().take(i as int), x@);
            assert forall|a: int, b: int| 0 <= a < b < after.len() implies !lex_lt(after[b], after[a]) by {
                if a == pos && pos < before.len() && lex_lt(before[b - 1], x@) {
                    if b - 1 > pos {
                        lemma_lex_transitive(before[b - 1], x@, before[pos as int]);
                    } else {
                        lemma_lex_trichotomy(x@, before[pos as int]);
                    }
                }
            }
        }
        i = i + 1;
    }
    assert(v.deep_view().take(v@.len() as int) =~= v.deep_view());
    res
}

} // verus!
