//! Text in the order Rust's `str` comparison gives it: by code points, a
//! proper prefix first (the same order as comparing UTF-8 bytes).

use crate::text::chars_of;
use vstd::prelude::*;
use vstd::relations::{sorted_by, total_ordering};

verus! {

/// `a` sorts strictly before `b`.
pub open spec fn lex_lt(a: Seq<char>, b: Seq<char>) -> bool
    decreases a.len(),
{
    if a.len() == 0 {
        b.len() > 0
    } else if b.len() == 0 {
        false
    } else if a[0] != b[0] {
        a[0] < b[0]
    } else {
        lex_lt(a.drop_first(), b.drop_first())
    }
}

/// Nothing sorts before itself.
pub proof fn lemma_lex_irreflexive(a: Seq<char>)
    ensures
        !lex_lt(a, a),
    decreases a.len(),
{
    if a.len() > 0 {
        lemma_lex_irreflexive(a.drop_first());
    }
}

/// The order is transitive.
pub proof fn lemma_lex_transitive(a: Seq<char>, b: Seq<char>, c: Seq<char>)
    requires
        lex_lt(a, b),
        lex_lt(b, c),
    ensures
        lex_lt(a, c),
    decreases a.len(),
{
    if a.len() > 0 && b.len() > 0 && c.len() > 0 && a[0] == b[0] && b[0] == c[0] {
        lemma_lex_transitive(a.drop_first(), b.drop_first(), c.drop_first());
    }
}

/// Of two different texts, one sorts before the other.
pub proof fn lemma_lex_total(a: Seq<char>, b: Seq<char>)
    requires
        a != b,
    ensures
        lex_lt(a, b) || lex_lt(b, a),
    decreases a.len(),
{
    if a.len() > 0 && b.len() > 0 && a[0] == b[0] {
        if a.drop_first() == b.drop_first() {
            assert(a =~= seq![a[0]] + a.drop_first());
            assert(b =~= seq![b[0]] + b.drop_first());
        }
        lemma_lex_total(a.drop_first(), b.drop_first());
    } else if a.len() == 0 && b.len() == 0 {
        assert(a =~= b);
    }
}

/// No two texts sort before each other.
pub proof fn lemma_lex_asymmetric(a: Seq<char>, b: Seq<char>)
    requires
        lex_lt(a, b),
    ensures
        !lex_lt(b, a),
{
    if lex_lt(b, a) {
        lemma_lex_transitive(a, b, a);
        lemma_lex_irreflexive(a);
    }
}

/// Whether `a` sorts strictly before `b`.
pub fn text_lt(a: &str, b: &str) -> (r: bool)
    ensures
        r == lex_lt(a@, b@),
{
    let x = chars_of(a);
    let y = chars_of(b);
    let mut k: usize = 0;
    assert(a@.skip(0) =~= a@ && b@.skip(0) =~= b@);
    while k < x.len() && k < y.len() && x[k] == y[k]
        invariant
            x@ == a@,
            y@ == b@,
            k <= x@.len(),
            k <= y@.len(),
            lex_lt(a@, b@) == lex_lt(a@.skip(k as int), b@.skip(k as int)),
        decreases x@.len() - k,
    {
        proof {
            let s = a@.skip(k as int);
            let t = b@.skip(k as int);
            assert(s.drop_first() =~= a@.skip(k + 1));
            assert(t.drop_first() =~= b@.skip(k + 1));
        }
        k = k + 1;
    }
    proof {
        let s = a@.skip(k as int);
        let t = b@.skip(k as int);
        if k < x@.len() && k < y@.len() {
            assert(s[0] == x@[k as int] && t[0] == y@[k as int]);
        }
    }
    if k == x.len() {
        k < y.len()
    } else if k == y.len() {
        false
    } else {
        x[k] < y[k]
    }
}

/// Every text of `s` sorts strictly before the ones after it.
pub open spec fn strictly_sorted(s: Seq<Seq<char>>) -> bool {
    forall|i: int, j: int| 0 <= i < j < s.len() ==> lex_lt(#[trigger] s[i], #[trigger] s[j])
}

/// Add `x` to the strictly sorted texts `v`, unless it is there already,
/// keeping them strictly sorted.
pub fn insert_sorted(v: &mut Vec<String>, x: String)
    requires
        strictly_sorted(crate::config::texts(old(v)@)),
    ensures
        strictly_sorted(crate::config::texts(final(v)@)),
        forall|t: Seq<char>| crate::config::texts(final(v)@).contains(t) <==> (crate::config::texts(old(v)@).contains(t) || t == x@),
{
    let ghost tv = crate::config::texts(v@);
    let n = v.len();
    let mut p: usize = 0;
    while p < n && text_lt(v[p].as_str(), x.as_str())
        invariant
            n == v@.len(),
            tv == crate::config::texts(v@),
            p <= n,
            forall|i: int| 0 <= i < p ==> lex_lt(#[trigger] tv[i], x@),
        decreases n - p,
    {
        assert(tv[p as int] == v@[p as int]@);
        p = p + 1;
    }
    if p < n && v[p] == x {
        assert(tv[p as int] == x@);
        assert forall|t: Seq<char>| tv.contains(t) <==> (tv.contains(t) || t == x@) by {
            if t == x@ {
                assert(tv[p as int] == t);
            }
        }
        return;
    }
    proof {
        if p < n {
            assert(tv[p as int] == v@[p as int]@);
            assert(!lex_lt(tv[p as int], x@));
            lemma_lex_total(tv[p as int], x@);
        }
    }
    v.insert(p, x);
    proof {
        let nv = crate::config::texts(v@);
        assert(nv =~= tv.insert(p as int, x@));
        assert forall|i: int, j: int| 0 <= i < j < nv.len() implies lex_lt(#[trigger] nv[i], #[trigger] nv[j]) by {
            if j < p {
            } else if j == p {
            } else if i == p {
                if j - 1 > p {
                    lemma_lex_transitive(x@, tv[p as int], tv[j - 1]);
                }
            } else if i < p {
                lemma_lex_transitive(tv[i], x@, tv[p as int]);
                if j - 1 > p {
                    lemma_lex_transitive(tv[i], tv[p as int], tv[j - 1]);
                }
            } else {
                assert(nv[i] == tv[i - 1] && nv[j] == tv[j - 1]);
            }
        }
        assert forall|t: Seq<char>| nv.contains(t) <==> (tv.contains(t) || t == x@) by {
            if nv.contains(t) {
                let i = choose|i: int| 0 <= i < nv.len() && nv[i] == t;
                if i < p {
                    assert(tv[i] == t);
                } else if i > p {
                    assert(tv[i - 1] == t);
                }
            }
            if tv.contains(t) {
                let i = choose|i: int| 0 <= i < tv.len() && tv[i] == t;
                if i < p {
                    assert(nv[i] == t);
                } else {
                    assert(nv[i + 1] == t);
                }
            }
            if t == x@ {
                assert(nv[p as int] == t);
            }
        }
    }
}


/// Text order with equal texts allowed: `a` does not sort after `b`.
pub open spec fn lex_le(a: Seq<char>, b: Seq<char>) -> bool {
    !lex_lt(b, a)
}

/// `lex_le` is a total order.
pub proof fn lemma_lex_le_total()
    ensures
        total_ordering(|a: Seq<char>, b: Seq<char>| lex_le(a, b)),
{
    let r = |a: Seq<char>, b: Seq<char>| lex_le(a, b);
    assert forall|x: Seq<char>| #[trigger] r(x, x) by {
        lemma_lex_irreflexive(x);
    }
    assert forall|x: Seq<char>, y: Seq<char>| #[trigger] r(x, y) && #[trigger] r(y, x) implies x == y by {
        if x != y {
            lemma_lex_total(x, y);
        }
    }
    assert forall|x: Seq<char>, y: Seq<char>, z: Seq<char>| #[trigger] r(x, y) && #[trigger] r(y, z) implies r(x, z) by {
        if lex_lt(z, x) {
            if x == y {
            } else {
                lemma_lex_total(x, y);
                lemma_lex_transitive(z, x, y);
            }
        }
    }
    assert forall|x: Seq<char>, y: Seq<char>| #[trigger] r(x, y) || #[trigger] r(y, x) by {
        if lex_lt(y, x) {
            lemma_lex_asymmetric(y, x);
        }
    }
}

/// Ranking of scored texts: higher score first, then text order.
pub open spec fn rank_le(a: (int, Seq<char>), b: (int, Seq<char>)) -> bool {
    a.0 > b.0 || (a.0 == b.0 && lex_le(a.1, b.1))
}

/// `rank_le` is a total order.
pub proof fn lemma_rank_le_total()
    ensures
        total_ordering(|a: (int, Seq<char>), b: (int, Seq<char>)| rank_le(a, b)),
{
    lemma_lex_le_total();
    let l = |a: Seq<char>, b: Seq<char>| lex_le(a, b);
    let r = |a: (int, Seq<char>), b: (int, Seq<char>)| rank_le(a, b);
    assert forall|x: (int, Seq<char>)| #[trigger] r(x, x) by {
        assert(l(x.1, x.1));
    }
    assert forall|x: (int, Seq<char>), y: (int, Seq<char>)| #[trigger] r(x, y) && #[trigger] r(y, x) implies x == y by {
        assert(l(x.1, y.1) && l(y.1, x.1) ==> x.1 == y.1);
    }
    assert forall|x: (int, Seq<char>), y: (int, Seq<char>), z: (int, Seq<char>)| #[trigger] r(x, y) && #[trigger] r(y, z) implies r(x, z) by {
        assert(l(x.1, y.1) && l(y.1, z.1) ==> l(x.1, z.1));
    }
    assert forall|x: (int, Seq<char>), y: (int, Seq<char>)| #[trigger] r(x, y) || #[trigger] r(y, x) by {
        assert(l(x.1, y.1) || l(y.1, x.1));
    }
}

/// The score and text of a scored entry.
pub open spec fn scored_view(p: (i64, String)) -> (int, Seq<char>) {
    (p.0 as int, p.1@)
}

/// Scored entries as scores and texts.
pub open spec fn scored_views(v: Seq<(i64, String)>) -> Seq<(int, Seq<char>)> {
    v.map_values(|p: (i64, String)| scored_view(p))
}

/// The texts of `v`, ranked: highest score first, equal scores in text
/// order.
pub open spec fn ranked(v: Seq<(int, Seq<char>)>) -> Seq<Seq<char>> {
    v.sort_by(|a: (int, Seq<char>), b: (int, Seq<char>)| rank_le(a, b)).map_values(|p: (int, Seq<char>)| p.1)
}

fn rank_le_exec(a: &(i64, String), b: &(i64, String)) -> (r: bool)
    ensures
        r == rank_le(scored_view(*a), scored_view(*b)),
{
    a.0 > b.0 || (a.0 == b.0 && !text_lt(b.1.as_str(), a.1.as_str()))
}

/// The texts of `scored`, highest score first and equal scores in text
/// order (see `ranked`).
pub fn rank(scored: Vec<(i64, String)>) -> (r: Vec<String>)
    ensures
        crate::config::texts(r@) == ranked(scored_views(scored@)),
{
    let ghost leq = |a: (int, Seq<char>), b: (int, Seq<char>)| rank_le(a, b);
    proof {
        lemma_rank_le_total();
    }
    let ghost src = scored_views(scored@);
    let mut out: Vec<(i64, String)> = Vec::new();
    let n = scored.len();
    let mut k: usize = 0;
    assert(scored_views(out@) =~= Seq::<(int, Seq<char>)>::empty());
    assert(src.take(0) =~= Seq::<(int, Seq<char>)>::empty());
    while k < n
        invariant
            n == scored@.len(),
            src == scored_views(scored@),
            total_ordering(leq),
            leq == (|a: (int, Seq<char>), b: (int, Seq<char>)| rank_le(a, b)),
            k <= n,
            sorted_by(scored_views(out@), leq),
            scored_views(out@).to_multiset() == src.take(k as int).to_multiset(),
        decreases n - k,
    {
        let item = &scored[k];
        let ghost ov = scored_views(out@);
        let m = out.len();
        let mut p: usize = 0;
        while p < m && rank_le_exec(&out[p], item)
            invariant
                m == out@.len(),
                ov == scored_views(out@),
                k < n,
                n == scored@.len(),
                *item == scored@[k as int],
                leq == (|a: (int, Seq<char>), b: (int, Seq<char>)| rank_le(a, b)),
                p <= m,
                forall|i: int| 0 <= i < p ==> leq(#[trigger] ov[i], scored_view(*item)),
            decreases m - p,
        {
            assert(ov[p as int] == scored_view(out@[p as int]));
            p = p + 1;
        }
        let entry = (item.0, item.1.clone());
        assert(scored_view(entry) == scored_view(*item));
        out.insert(p, entry);
        proof {
            let x = scored_view(*item);
            let nv = scored_views(out@);
            assert(nv =~= ov.insert(p as int, x));
            if p < m {
                assert(ov[p as int] == scored_view(out@[p as int + 1]));
                assert(!leq(ov[p as int], x));
                assert(leq(x, ov[p as int]));
            }
            assert forall|i: int, j: int| 0 <= i < j < nv.len() implies #[trigger] leq(nv[i], nv[j]) by {
                if j < p {
                    assert(nv[i] == ov[i] && nv[j] == ov[j]);
                } else if j == p {
                    assert(nv[i] == ov[i]);
                } else if i == p {
                    assert(nv[j] == ov[j - 1]);
                    if j - 1 > p {
                        assert(leq(ov[p as int], ov[j - 1]));
                    }
                } else if i < p {
                    assert(nv[i] == ov[i] && nv[j] == ov[j - 1]);
                    assert(leq(ov[i], x));
                    if j - 1 >= p {
                        if j - 1 > p {
                            assert(leq(ov[p as int], ov[j - 1]));
                        }
                        assert(leq(x, ov[j - 1]));
                    }
                } else {
                    assert(nv[i] == ov[i - 1] && nv[j] == ov[j - 1]);
                }
            }
            vstd::seq_lib::to_multiset_insert(ov, p as int, x);
            assert(src.take(k + 1) =~= src.take(k as int).push(x));
            vstd::seq_lib::to_multiset_build(src.take(k as int), x);
        }
        k = k + 1;
    }
    proof {
        assert(src.take(n as int) =~= src);
        src.lemma_sort_by_ensures(leq);
        vstd::seq_lib::lemma_sorted_unique(scored_views(out@), src.sort_by(leq), leq);
    }
    let mut names: Vec<String> = Vec::new();
    let mut j: usize = 0;
    while j < out.len()
        invariant
            j <= out@.len(),
            crate::config::texts(names@) == scored_views(out@).take(j as int).map_values(|p: (int, Seq<char>)| p.1),
        decreases out@.len() - j,
    {
        let name = out[j].1.clone();
        let ghost sv = scored_views(out@);
        assert(sv[j as int] == scored_view(out@[j as int]));
        assert(name@ == sv[j as int].1);
        let ghost before = crate::config::texts(names@);
        names.push(name);
        proof {
            assert(crate::config::texts(names@) =~= before.push(name@));
            assert(sv.take(j + 1).map_values(|p: (int, Seq<char>)| p.1) =~= sv.take(j as int).map_values(|p: (int, Seq<char>)| p.1).push(sv[j as int].1));
        }
        j = j + 1;
    }
    assert(scored_views(out@).take(out@.len() as int) =~= scored_views(out@));
    names
}


/// The texts of `v` in text order, duplicates kept.
pub fn sort_texts(v: &Vec<String>) -> (r: Vec<String>)
    ensures
        crate::config::texts(r@) == crate::config::texts(v@).sort_by(|a: Seq<char>, b: Seq<char>| lex_le(a, b)),
{
    let ghost leq = |a: Seq<char>, b: Seq<char>| lex_le(a, b);
    proof {
        lemma_lex_le_total();
    }
    let ghost src = crate::config::texts(v@);
    let mut out: Vec<String> = Vec::new();
    let n = v.len();
    let mut k: usize = 0;
    assert(crate::config::texts(out@) =~= Seq::<Seq<char>>::empty());
    assert(src.take(0) =~= Seq::<Seq<char>>::empty());
    while k < n
        invariant
            n == v@.len(),
            src == crate::config::texts(v@),
            total_ordering(leq),
            leq == (|a: Seq<char>, b: Seq<char>| lex_le(a, b)),
            k <= n,
            sorted_by(crate::config::texts(out@), leq),
            crate::config::texts(out@).to_multiset() == src.take(k as int).to_multiset(),
        decreases n - k,
    {
        let item = &v[k];
        let ghost ov = crate::config::texts(out@);
        let m = out.len();
        let mut p: usize = 0;
        while p < m && !text_lt(item.as_str(), out[p].as_str())
            invariant
                m == out@.len(),
                ov == crate::config::texts(out@),
                k < n,
                n == v@.len(),
                *item == v@[k as int],
                leq == (|a: Seq<char>, b: Seq<char>| lex_le(a, b)),
                p <= m,
                forall|i: int| 0 <= i < p ==> leq(#[trigger] ov[i], item@),
            decreases m - p,
        {
            assert(ov[p as int] == out@[p as int]@);
            p = p + 1;
        }
        let entry = item.clone();
        out.insert(p, entry);
        proof {
            let x = item@;
            let nv = crate::config::texts(out@);
            assert(nv =~= ov.insert(p as int, x));
            if p < m {
                assert(ov[p as int] == out@[p as int + 1]@);
                assert(lex_lt(x, ov[p as int]));
                lemma_lex_asymmetric(x, ov[p as int]);
                assert(leq(x, ov[p as int]));
            }
            assert forall|i: int, j: int| 0 <= i < j < nv.len() implies #[trigger] leq(nv[i], nv[j]) by {
                if j < p {
                    assert(nv[i] == ov[i] && nv[j] == ov[j]);
                } else if j == p {
                    assert(nv[i] == ov[i]);
                } else if i == p {
                    assert(nv[j] == ov[j - 1]);
                    if j - 1 > p {
                        assert(leq(ov[p as int], ov[j - 1]));
                    }
                } else if i < p {
                    assert(nv[i] == ov[i] && nv[j] == ov[j - 1]);
                    assert(leq(ov[i], x));
                    if j - 1 >= p {
                        if j - 1 > p {
                            assert(leq(ov[p as int], ov[j - 1]));
                        }
                        assert(leq(x, ov[j - 1]));
                    }
                } else {
                    assert(nv[i] == ov[i - 1] && nv[j] == ov[j - 1]);
                }
            }
            vstd::seq_lib::to_multiset_insert(ov, p as int, x);
            assert(src.take(k + 1) =~= src.take(k as int).push(x));
            vstd::seq_lib::to_multiset_build(src.take(k as int), x);
        }
        k = k + 1;
    }
    proof {
        assert(src.take(n as int) =~= src);
        src.lemma_sort_by_ensures(leq);
        vstd::seq_lib::lemma_sorted_unique(crate::config::texts(out@), src.sort_by(leq), leq);
    }
    out
}


/// A scored `(header, value)` field as numbers and texts.
pub open spec fn field_view(p: (i64, (String, String))) -> (int, (Seq<char>, Seq<char>)) {
    (p.0 as int, (p.1.0@, p.1.1@))
}

/// Scored fields as numbers and texts.
pub open spec fn field_views(v: Seq<(i64, (String, String))>) -> Seq<(int, (Seq<char>, Seq<char>))> {
    v.map_values(|p: (i64, (String, String))| field_view(p))
}

/// Ranking of scored fields: higher score first, then header order, then
/// value order.
pub open spec fn field_le(a: (int, (Seq<char>, Seq<char>)), b: (int, (Seq<char>, Seq<char>))) -> bool {
    a.0 > b.0 || (a.0 == b.0 && (lex_lt(a.1.0, b.1.0) || (a.1.0 == b.1.0 && lex_le(a.1.1, b.1.1))))
}

/// `field_le` is a total order.
pub proof fn lemma_field_le_total()
    ensures
        total_ordering(|a: (int, (Seq<char>, Seq<char>)), b: (int, (Seq<char>, Seq<char>))| field_le(a, b)),
{
    lemma_lex_le_total();
    let l = |a: Seq<char>, b: Seq<char>| lex_le(a, b);
    let r = |a: (int, (Seq<char>, Seq<char>)), b: (int, (Seq<char>, Seq<char>))| field_le(a, b);
    assert forall|x: (int, (Seq<char>, Seq<char>))| #[trigger] r(x, x) by {
        assert(l(x.1.1, x.1.1));
    }
    assert forall|x: (int, (Seq<char>, Seq<char>)), y: (int, (Seq<char>, Seq<char>))| #[trigger] r(x, y) && #[trigger] r(y, x) implies x == y by {
        if lex_lt(x.1.0, y.1.0) && lex_lt(y.1.0, x.1.0) {
            lemma_lex_asymmetric(x.1.0, y.1.0);
        }
        if lex_lt(x.1.0, y.1.0) && y.1.0 == x.1.0 {
            lemma_lex_irreflexive(x.1.0);
        }
        if lex_lt(y.1.0, x.1.0) && y.1.0 == x.1.0 {
            lemma_lex_irreflexive(x.1.0);
        }
        assert(l(x.1.1, y.1.1) && l(y.1.1, x.1.1) ==> x.1.1 == y.1.1);
    }
    assert forall|x: (int, (Seq<char>, Seq<char>)), y: (int, (Seq<char>, Seq<char>)), z: (int, (Seq<char>, Seq<char>))| #[trigger] r(x, y) && #[trigger] r(y, z) implies r(x, z) by {
        if x.0 == y.0 && y.0 == z.0 {
            if lex_lt(x.1.0, y.1.0) && lex_lt(y.1.0, z.1.0) {
                lemma_lex_transitive(x.1.0, y.1.0, z.1.0);
            }
            assert(l(x.1.1, y.1.1) && l(y.1.1, z.1.1) ==> l(x.1.1, z.1.1));
        }
    }
    assert forall|x: (int, (Seq<char>, Seq<char>)), y: (int, (Seq<char>, Seq<char>))| #[trigger] r(x, y) || #[trigger] r(y, x) by {
        if x.1.0 != y.1.0 {
            lemma_lex_total(x.1.0, y.1.0);
        }
        assert(l(x.1.1, y.1.1) || l(y.1.1, x.1.1));
    }
}

/// The `(header, value)` texts of `v`, ranked by `field_le`.
pub open spec fn ranked_fields(v: Seq<(int, (Seq<char>, Seq<char>))>) -> Seq<(Seq<char>, Seq<char>)> {
    v.sort_by(|a: (int, (Seq<char>, Seq<char>)), b: (int, (Seq<char>, Seq<char>))| field_le(a, b)).map_values(
        |p: (int, (Seq<char>, Seq<char>))| p.1,
    )
}

/// The texts of `(header, value)` pairs.
pub open spec fn pair_texts(v: Seq<(String, String)>) -> Seq<(Seq<char>, Seq<char>)> {
    v.map_values(|p: (String, String)| (p.0@, p.1@))
}

fn field_le_exec(a: &(i64, (String, String)), b: &(i64, (String, String))) -> (r: bool)
    ensures
        r == field_le(field_view(*a), field_view(*b)),
{
    a.0 > b.0 || (a.0 == b.0 && (text_lt(a.1.0.as_str(), b.1.0.as_str()) || (a.1.0 == b.1.0
        && !text_lt(b.1.1.as_str(), a.1.1.as_str()))))
}

/// The fields of `scored`, ranked (see `ranked_fields`).
pub fn rank_fields(scored: Vec<(i64, (String, String))>) -> (r: Vec<(String, String)>)
    ensures
        pair_texts(r@) == ranked_fields(field_views(scored@)),
{
    let ghost leq = |a: (int, (Seq<char>, Seq<char>)), b: (int, (Seq<char>, Seq<char>))| field_le(a, b);
    proof {
        lemma_field_le_total();
    }
    let ghost src = field_views(scored@);
    let mut out: Vec<(i64, (String, String))> = Vec::new();
    let n = scored.len();
    let mut k: usize = 0;
    assert(field_views(out@) =~= Seq::<(int, (Seq<char>, Seq<char>))>::empty());
    assert(src.take(0) =~= Seq::<(int, (Seq<char>, Seq<char>))>::empty());
    while k < n
        invariant
            n == scored@.len(),
            src == field_views(scored@),
            total_ordering(leq),
            leq == (|a: (int, (Seq<char>, Seq<char>)), b: (int, (Seq<char>, Seq<char>))| field_le(a, b)),
            k <= n,
            sorted_by(field_views(out@), leq),
            field_views(out@).to_multiset() == src.take(k as int).to_multiset(),
        decreases n - k,
    {
        let item = &scored[k];
        let ghost ov = field_views(out@);
        let m = out.len();
        let mut p: usize = 0;
        while p < m && field_le_exec(&out[p], item)
            invariant
                m == out@.len(),
                ov == field_views(out@),
                k < n,
                n == scored@.len(),
                *item == scored@[k as int],
                leq == (|a: (int, (Seq<char>, Seq<char>)), b: (int, (Seq<char>, Seq<char>))| field_le(a, b)),
                p <= m,
                forall|i: int| 0 <= i < p ==> leq(#[trigger] ov[i], field_view(*item)),
            decreases m - p,
        {
            assert(ov[p as int] == field_view(out@[p as int]));
            p = p + 1;
        }
        let entry = (item.0, (item.1.0.clone(), item.1.1.clone()));
        assert(field_view(entry) == field_view(*item));
        out.insert(p, entry);
        proof {
            let x = field_view(*item);
            let nv = field_views(out@);
            assert(nv =~= ov.insert(p as int, x));
            if p < m {
                assert(ov[p as int] == field_view(out@[p as int + 1]));
                assert(!leq(ov[p as int], x));
                assert(leq(x, ov[p as int]));
            }
            assert forall|i: int, j: int| 0 <= i < j < nv.len() implies #[trigger] leq(nv[i], nv[j]) by {
                if j < p {
                    assert(nv[i] == ov[i] && nv[j] == ov[j]);
                } else if j == p {
                    assert(nv[i] == ov[i]);
                } else if i == p {
                    assert(nv[j] == ov[j - 1]);
                    if j - 1 > p {
                        assert(leq(ov[p as int], ov[j - 1]));
                    }
                } else if i < p {
                    assert(nv[i] == ov[i] && nv[j] == ov[j - 1]);
                    assert(leq(ov[i], x));
                    if j - 1 >= p {
                        if j - 1 > p {
                            assert(leq(ov[p as int], ov[j - 1]));
                        }
                        assert(leq(x, ov[j - 1]));
                    }
                } else {
                    assert(nv[i] == ov[i - 1] && nv[j] == ov[j - 1]);
                }
            }
            vstd::seq_lib::to_multiset_insert(ov, p as int, x);
            assert(src.take(k + 1) =~= src.take(k as int).push(x));
            vstd::seq_lib::to_multiset_build(src.take(k as int), x);
        }
        k = k + 1;
    }
    proof {
        assert(src.take(n as int) =~= src);
        src.lemma_sort_by_ensures(leq);
        vstd::seq_lib::lemma_sorted_unique(field_views(out@), src.sort_by(leq), leq);
    }
    let mut pairs: Vec<(String, String)> = Vec::new();
    let mut j: usize = 0;
    while j < out.len()
        invariant
            j <= out@.len(),
            pair_texts(pairs@) == field_views(out@).take(j as int).map_values(|p: (int, (Seq<char>, Seq<char>))| p.1),
        decreases out@.len() - j,
    {
        let pair = (out[j].1.0.clone(), out[j].1.1.clone());
        let ghost fv = field_views(out@);
        assert(fv[j as int] == field_view(out@[j as int]));
        let ghost before = pair_texts(pairs@);
        pairs.push(pair);
        proof {
            assert(pair_texts(pairs@) =~= before.push(fv[j as int].1));
            assert(fv.take(j + 1).map_values(|p: (int, (Seq<char>, Seq<char>))| p.1) =~= fv.take(j as int).map_values(|p: (int, (Seq<char>, Seq<char>))| p.1).push(fv[j as int].1));
        }
        j = j + 1;
    }
    assert(field_views(out@).take(out@.len() as int) =~= field_views(out@));
    pairs
}


/// Two strictly sorted lists of texts that hold the same texts are the same
/// list.
pub proof fn law_strictly_sorted_unique(a: Seq<Seq<char>>, b: Seq<Seq<char>>)
    requires
        strictly_sorted(a),
        strictly_sorted(b),
        forall|t: Seq<char>| a.contains(t) <==> b.contains(t),
    ensures
        a == b,
    decreases a.len() + b.len(),
{
    if a.len() == 0 || b.len() == 0 {
        if a.len() > 0 {
            assert(a.contains(a[0]));
        }
        if b.len() > 0 {
            assert(b.contains(b[0]));
        }
        assert(a =~= b);
    } else {
        assert(a.contains(a[0]) && b.contains(b[0]));
        let i = choose|i: int| 0 <= i < b.len() && b[i] == a[0];
        let j = choose|j: int| 0 <= j < a.len() && a[j] == b[0];
        if i > 0 {
            assert(lex_lt(b[0], b[i]));
            if j > 0 {
                assert(lex_lt(a[0], a[j]));
                lemma_lex_asymmetric(b[0], a[0]);
            } else {
                lemma_lex_irreflexive(a[0]);
            }
        }
        assert(a[0] == b[0]) by {
            if i > 0 {
                if j == 0 {
                    lemma_lex_irreflexive(a[0]);
                }
            }
        }
        let a1 = a.drop_first();
        let b1 = b.drop_first();
        assert forall|t: Seq<char>| a1.contains(t) <==> b1.contains(t) by {
            if a1.contains(t) {
                let k = choose|k: int| 0 <= k < a1.len() && a1[k] == t;
                assert(a[k + 1] == t);
                assert(lex_lt(a[0], t));
                assert(b.contains(t));
                let m = choose|m: int| 0 <= m < b.len() && b[m] == t;
                if m == 0 {
                    lemma_lex_irreflexive(t);
                }
                assert(b1[m - 1] == t);
            }
            if b1.contains(t) {
                let k = choose|k: int| 0 <= k < b1.len() && b1[k] == t;
                assert(b[k + 1] == t);
                assert(lex_lt(b[0], t));
                assert(a.contains(t));
                let m = choose|m: int| 0 <= m < a.len() && a[m] == t;
                if m == 0 {
                    lemma_lex_irreflexive(t);
                }
                assert(a1[m - 1] == t);
            }
        }
        assert(strictly_sorted(a1)) by {
            assert forall|x: int, y: int| 0 <= x < y < a1.len() implies lex_lt(#[trigger] a1[x], #[trigger] a1[y]) by {
                assert(a1[x] == a[x + 1] && a1[y] == a[y + 1]);
            }
        }
        assert(strictly_sorted(b1)) by {
            assert forall|x: int, y: int| 0 <= x < y < b1.len() implies lex_lt(#[trigger] b1[x], #[trigger] b1[y]) by {
                assert(b1[x] == b[x + 1] && b1[y] == b[y + 1]);
            }
        }
        law_strictly_sorted_unique(a1, b1);
        assert(a =~= seq![a[0]] + a1);
        assert(b =~= seq![b[0]] + b1);
    }
}

} // verus!
