//! Stable sorting of string keys in string order.
use vstd::prelude::*;
use crate::versions::lex_less;

verus! {

/// String order is transitive.
pub proof fn lemma_lex_less_transitive(a: Seq<char>, b: Seq<char>, c: Seq<char>)
    requires
        lex_less(a, b),
        lex_less(b, c),
    ensures
        lex_less(a, c),
    decreases a.len(),
{
    if a.len() > 0 && b.len() > 0 && c.len() > 0 && a[0] == b[0] && b[0] == c[0] {
        lemma_lex_less_transitive(a.skip(1), b.skip(1), c.skip(1));
    }
}

/// String order is total.
pub proof fn lemma_lex_less_total(a: Seq<char>, b: Seq<char>)
    ensures
        lex_less(a, b) || lex_less(b, a) || a == b,
    decreases a.len(),
{
    if a.len() > 0 && b.len() > 0 && a[0] == b[0] {
        lemma_lex_less_total(a.skip(1), b.skip(1));
        if a.skip(1) == b.skip(1) {
            assert(a =~= seq![a[0]] + a.skip(1));
            assert(b =~= seq![b[0]] + b.skip(1));
        }
    }
    if a.len() == 0 && b.len() == 0 {
        assert(a =~= b);
    }
}

/// `idx` lists the positions of `keys` in string order of their keys, equal
/// keys in their original order.
pub open spec fn stable_sorted(keys: Seq<Seq<char>>, idx: Seq<int>) -> bool {
    &&& idx.len() == keys.len()
    &&& forall|a: int| 0 <= a < idx.len() ==> 0 <= #[trigger] idx[a] < keys.len()
    &&& idx.no_duplicates()
    &&& forall|x: int| 0 <= x < keys.len() ==> idx.contains(x)
    &&& forall|a: int, b: int|
        0 <= a < b < idx.len() ==> !lex_less(#[trigger] keys[idx[b]], #[trigger] keys[idx[a]])
    &&& forall|a: int, b: int|
        0 <= a < b < idx.len() && #[trigger] keys[idx[a]] == #[trigger] keys[idx[b]] ==> idx[a] < idx[b]
}

pub open spec fn index_view(v: Seq<usize>) -> Seq<int> {
    v.map_values(|i: usize| i as int)
}

/// The positions of `keys` in stable string order.
pub fn stable_sort_indices(keys: &Vec<Vec<char>>) -> (r: Vec<usize>)
    ensures
        stable_sorted(crate::text::vec_views(keys@), index_view(r@)),
{
    let ghost kv = crate::text::vec_views(keys@);
    let mut r: Vec<usize> = Vec::new();
    let mut i: usize = 0;
    while i < keys.len()
        invariant
            i <= keys@.len(),
            kv == crate::text::vec_views(keys@),
            kv.len() == keys@.len(),
            stable_sorted(kv.take(i as int), index_view(r@)),
            forall|a: int| 0 <= a < r@.len() ==> (#[trigger] r@[a]) < i,
        decreases keys@.len() - i,
    {
        let ghost rv = index_view(r@);
        let ghost ki = kv[i as int];
        assert(ki == keys@[i as int]@);
        let mut p: usize = 0;
        while p < r.len() && !crate::versions::str_less_chars(&keys[i], &keys[r[p]])
            invariant
                p <= r@.len(),
                rv == index_view(r@),
                kv == crate::text::vec_views(keys@),
                ki == kv[i as int],
                i < keys@.len(),
                forall|a: int| 0 <= a < r@.len() ==> (#[trigger] r@[a]) < i,
                forall|a: int| 0 <= a < p ==> !lex_less(ki, #[trigger] kv[rv[a]]),
            decreases r@.len() - p,
        {
            assert(kv[rv[p as int]] == keys@[r@[p as int] as int]@);
            p = p + 1;
        }
        if p < r.len() {
            assert(kv[rv[p as int]] == keys@[r@[p as int] as int]@);
            assert(lex_less(ki, kv[rv[p as int]]));
        }
        let ghost old_r = r@;
        r.insert(p, i);
        let ghost nv = index_view(r@);
        let ghost kt = kv.take(i + 1);
        proof {
            assert(nv =~= rv.insert(p as int, i as int));
            assert forall|a: int| 0 <= a < nv.len() implies 0 <= #[trigger] nv[a] < kt.len() by {
                if a < p {
                    assert(nv[a] == rv[a]);
                } else if a > p {
                    assert(nv[a] == rv[a - 1]);
                }
            }
            assert forall|a: int| 0 <= a < rv.len() implies #[trigger] kt[rv[a]] == kv[rv[a]] by {}
            assert(kt[i as int] == ki);
            assert forall|a: int, b: int| 0 <= a < b < nv.len() implies !lex_less(
                #[trigger] kt[nv[b]],
                #[trigger] kt[nv[a]],
            ) by {
                if b < p {
                    assert(nv[a] == rv[a] && nv[b] == rv[b]);
                } else if b == p {
                    assert(nv[a] == rv[a]);
                    assert(nv[b] == i);
                    lemma_lex_less_total(ki, kv[rv[a]]);
                    crate::versions::lemma_lex_less_asymmetric(ki, kv[rv[a]]);
                } else if a < p {
                    assert(nv[a] == rv[a] && nv[b] == rv[b - 1]);
                    let ko = kv.take(i as int);
                    assert(ko[rv[b - 1]] == kv[rv[b - 1]]);
                    assert(ko[rv[a]] == kv[rv[a]]);
                    assert(!lex_less(ko[rv[b - 1]], ko[rv[a]]));
                } else if a == p {
                    assert(nv[a] == i && nv[b] == rv[b - 1]);
                    assert(lex_less(ki, kv[rv[p as int]]));
                    if p < b - 1 {
                        let ko = kv.take(i as int);
                        assert(ko[rv[b - 1]] == kv[rv[b - 1]]);
                        assert(ko[rv[p as int]] == kv[rv[p as int]]);
                        assert(!lex_less(ko[rv[b - 1]], ko[rv[p as int]]));
                        lemma_lex_less_total(kv[rv[b - 1]], kv[rv[p as int]]);
                        if lex_less(kv[rv[p as int]], kv[rv[b - 1]]) {
                            lemma_lex_less_transitive(ki, kv[rv[p as int]], kv[rv[b - 1]]);
                        }
                    }
                    crate::versions::lemma_lex_less_asymmetric(ki, kv[rv[b - 1]]);
                } else {
                    assert(nv[a] == rv[a - 1] && nv[b] == rv[b - 1]);
                }
            }
            assert forall|a: int, b: int|
                0 <= a < b < nv.len() && #[trigger] kt[nv[a]] == #[trigger] kt[nv[b]] implies nv[a] < nv[b] by {
                if b < p {
                    assert(nv[a] == rv[a] && nv[b] == rv[b]);
                } else if b == p {
                    assert(nv[a] == rv[a]);
                    assert(nv[b] == i);
                } else if a < p {
                    assert(nv[a] == rv[a] && nv[b] == rv[b - 1]);
                } else if a == p {
                    assert(nv[a] == i && nv[b] == rv[b - 1]);
                    assert(lex_less(ki, kv[rv[p as int]]));
                    if p < b - 1 {
                        let ko = kv.take(i as int);
                        assert(ko[rv[b - 1]] == kv[rv[b - 1]]);
                        assert(ko[rv[p as int]] == kv[rv[p as int]]);
                        assert(!lex_less(ko[rv[b - 1]], ko[rv[p as int]]));
                        lemma_lex_less_total(kv[rv[b - 1]], kv[rv[p as int]]);
                        if lex_less(kv[rv[p as int]], kv[rv[b - 1]]) {
                            lemma_lex_less_transitive(ki, kv[rv[p as int]], kv[rv[b - 1]]);
                        }
                    }
                    crate::versions::lemma_lex_less_asymmetric(ki, kv[rv[b - 1]]);
                    assert(lex_less(ki, kv[rv[b - 1]]));
                    assert(false);
                } else {
                    assert(nv[a] == rv[a - 1] && nv[b] == rv[b - 1]);
                }
            }
            assert forall|a: int, b: int| 0 <= a < b < nv.len() implies nv[a] != nv[b] by {
                if b < p {
                    assert(nv[a] == rv[a] && nv[b] == rv[b]);
                } else if b == p {
                    assert(nv[a] == rv[a]);
                } else if a < p {
                    assert(nv[a] == rv[a] && nv[b] == rv[b - 1]);
                } else if a == p {
                    assert(nv[b] == rv[b - 1]);
                } else {
                    assert(nv[a] == rv[a - 1] && nv[b] == rv[b - 1]);
                }
            }
            assert(nv.no_duplicates());
            assert forall|x: int| 0 <= x < kt.len() implies nv.contains(x) by {
                if x == i {
                    assert(nv[p as int] == i);
                } else {
                    assert(kv.take(i as int).len() == i);
                    assert(rv.contains(x));
                    let a = choose|a: int| 0 <= a < rv.len() && rv[a] == x;
                    if a < p {
                        assert(nv[a] == x);
                    } else {
                        assert(nv[a + 1] == x);
                    }
                }
            }
            assert forall|a: int| 0 <= a < r@.len() implies (#[trigger] r@[a]) < i + 1 by {
                assert(r@[a] as int == nv[a]);
            }
        }
        i = i + 1;
    }
    assert(kv.take(keys@.len() as int) =~= kv);
    r
}

} // verus!

verus! {

/// The order a stable sort puts positions in: by key, then by position.
pub open spec fn before(keys: Seq<Seq<char>>, x: int, y: int) -> bool {
    lex_less(keys[x], keys[y]) || (keys[x] == keys[y] && x < y)
}

proof fn lemma_sorted_increasing(keys: Seq<Seq<char>>, idx: Seq<int>, a: int, b: int)
    requires
        stable_sorted(keys, idx),
        0 <= a < b < idx.len(),
    ensures
        before(keys, idx[a], idx[b]),
{
    assert(!lex_less(keys[idx[b]], keys[idx[a]]));
    lemma_lex_less_total(keys[idx[a]], keys[idx[b]]);
}

proof fn lemma_before_asymmetric(keys: Seq<Seq<char>>, x: int, y: int)
    requires
        before(keys, x, y),
    ensures
        !before(keys, y, x),
{
    crate::versions::lemma_lex_less_asymmetric(keys[x], keys[y]);
    if keys[x] == keys[y] {
        crate::versions::lemma_lex_less_asymmetric(keys[y], keys[x]);
    }
}

/// There is one stable sorted order of a list of keys.
pub proof fn lemma_stable_sorted_unique(keys: Seq<Seq<char>>, i1: Seq<int>, i2: Seq<int>)
    requires
        stable_sorted(keys, i1),
        stable_sorted(keys, i2),
    ensures
        i1 == i2,
{
    assert forall|a: int| 0 <= a < i1.len() implies i1[a] == i2[a] by {
        lemma_sorted_agree_upto(keys, i1, i2, a);
    }
    assert(i1 =~= i2);
}

proof fn lemma_sorted_agree_upto(keys: Seq<Seq<char>>, i1: Seq<int>, i2: Seq<int>, a: int)
    requires
        stable_sorted(keys, i1),
        stable_sorted(keys, i2),
        0 <= a < i1.len(),
    ensures
        i1[a] == i2[a],
    decreases a,
{
    assert forall|c: int| 0 <= c < a implies i1[c] == i2[c] by {
        lemma_sorted_agree_upto(keys, i1, i2, c);
    }
    let u = i1[a];
    let v = i2[a];
    if u != v {
        assert(i2.contains(u));
        let b = choose|b: int| 0 <= b < i2.len() && i2[b] == u;
        assert(i1.contains(v));
        let c = choose|c: int| 0 <= c < i1.len() && i1[c] == v;
        if b < a {
            assert(i1[b] == u);
        }
        if c < a {
            assert(i2[c] == v);
        }
        assert(b > a);
        assert(c > a);
        lemma_sorted_increasing(keys, i2, a, b);
        lemma_sorted_increasing(keys, i1, a, c);
        lemma_before_asymmetric(keys, v, u);
    }
}

} // verus!

verus! {

/// The names of a list of `(name, value)` pairs.
pub open spec fn pair_names(v: Seq<(Seq<char>, Seq<char>)>) -> Seq<Seq<char>> {
    v.map_values(|p: (Seq<char>, Seq<char>)| p.0)
}

/// `v` taken in the order of the positions `idx`.
pub open spec fn permuted(v: Seq<(Seq<char>, Seq<char>)>, idx: Seq<int>) -> Seq<(Seq<char>, Seq<char>)> {
    Seq::new(idx.len(), |a: int| v[idx[a]])
}

/// `r` is `v` stably sorted by name.
pub open spec fn sorts_by_name(v: Seq<(Seq<char>, Seq<char>)>, r: Seq<(Seq<char>, Seq<char>)>) -> bool {
    exists|idx: Seq<int>| #[trigger] stable_sorted(pair_names(v), idx) && r == permuted(v, idx)
}

/// A list of `(name, value)` pairs in a canonical order: stably sorted by
/// name. Lists that hold the same pairs with distinct names (a map, whatever
/// order it was walked in) give the same list.
pub fn sort_pairs_by_name(v: &Vec<(String, String)>) -> (r: Vec<(String, String)>)
    ensures
        sorts_by_name(crate::types::pair_views(v@), crate::types::pair_views(r@)),
{
    let ghost pv = crate::types::pair_views(v@);
    let mut keys: Vec<Vec<char>> = Vec::new();
    let mut i: usize = 0;
    while i < v.len()
        invariant
            i <= v@.len(),
            pv == crate::types::pair_views(v@),
            crate::text::vec_views(keys@) =~= pair_names(pv).take(i as int),
        decreases v@.len() - i,
    {
        let ghost k0 = crate::text::vec_views(keys@);
        keys.push(crate::text::chars_of(v[i].0.as_str()));
        assert(crate::text::vec_views(keys@) =~= k0.push(pv[i as int].0));
        assert(pair_names(pv).take(i + 1) =~= pair_names(pv).take(i as int).push(pv[i as int].0));
        i = i + 1;
    }
    assert(pair_names(pv).take(v@.len() as int) =~= pair_names(pv));
    let idx = stable_sort_indices(&keys);
    let ghost iv = index_view(idx@);
    let mut r: Vec<(String, String)> = Vec::new();
    let mut a: usize = 0;
    while a < idx.len()
        invariant
            a <= idx@.len(),
            iv == index_view(idx@),
            stable_sorted(pair_names(pv), iv),
            pv == crate::types::pair_views(v@),
            crate::types::pair_views(r@) =~= permuted(pv, iv).take(a as int),
        decreases idx@.len() - a,
    {
        let j = idx[a];
        assert(iv[a as int] == j as int);
        assert(0 <= iv[a as int] < pv.len());
        let ghost r0 = crate::types::pair_views(r@);
        r.push((crate::text::owned(v[j].0.as_str()), crate::text::owned(v[j].1.as_str())));
        assert(crate::types::pair_views(r@) =~= r0.push(pv[j as int]));
        assert(permuted(pv, iv).take(a + 1) =~= permuted(pv, iv).take(a as int).push(pv[j as int]));
        a = a + 1;
    }
    assert(permuted(pv, iv).take(idx@.len() as int) =~= permuted(pv, iv));
    assert(stable_sorted(pair_names(pv), iv) && crate::types::pair_views(r@) == permuted(pv, iv));
    r
}

proof fn lemma_lex_less_irreflexive(x: Seq<char>)
    ensures
        !lex_less(x, x),
{
    if lex_less(x, x) {
        crate::versions::lemma_lex_less_asymmetric(x, x);
    }
}

/// `v` taken in the order of the positions `idx`.
pub open spec fn in_order<T>(v: Seq<T>, idx: Seq<int>) -> Seq<T> {
    Seq::new(idx.len(), |a: int| v[idx[a]])
}

/// `keys` are the keys `key` gives the items of `v`, and no two are equal.
pub open spec fn keyed<T>(v: Seq<T>, keys: Seq<Seq<char>>, key: spec_fn(T) -> Seq<char>) -> bool {
    &&& keys.len() == v.len()
    &&& forall|i: int| 0 <= i < v.len() ==> #[trigger] keys[i] == key(v[i])
    &&& keys.no_duplicates()
}

/// Sorted by distinct keys: keys strictly increase.
proof fn lemma_sorted_strict<T>(v: Seq<T>, keys: Seq<Seq<char>>, key: spec_fn(T) -> Seq<char>, idx: Seq<int>, a: int, b: int)
    requires
        stable_sorted(keys, idx),
        keyed(v, keys, key),
        0 <= a < b < idx.len(),
    ensures
        lex_less(key(in_order(v, idx)[a]), key(in_order(v, idx)[b])),
{
    assert(!lex_less(keys[idx[b]], keys[idx[a]]));
    lemma_lex_less_total(keys[idx[a]], keys[idx[b]]);
    assert(idx[a] != idx[b]);
    assert(keys[idx[a]] != keys[idx[b]]);
    assert(keys[idx[a]] == key(v[idx[a]]));
    assert(keys[idx[b]] == key(v[idx[b]]));
}

proof fn lemma_in_order_contains<T>(v: Seq<T>, keys: Seq<Seq<char>>, idx: Seq<int>, x: T)
    requires
        stable_sorted(keys, idx),
        keys.len() == v.len(),
    ensures
        in_order(v, idx).contains(x) == v.contains(x),
{
    let p = in_order(v, idx);
    if v.contains(x) {
        let j = choose|j: int| 0 <= j < v.len() && v[j] == x;
        assert(idx.contains(j));
        let a = choose|a: int| 0 <= a < idx.len() && idx[a] == j;
        assert(p[a] == x);
    }
    if p.contains(x) {
        let a = choose|a: int| 0 <= a < p.len() && p[a] == x;
        assert(v[idx[a]] == x);
    }
}

proof fn lemma_strict_agree<T>(
    a: Seq<T>,
    ka: Seq<Seq<char>>,
    ia: Seq<int>,
    b: Seq<T>,
    kb: Seq<Seq<char>>,
    ib: Seq<int>,
    key: spec_fn(T) -> Seq<char>,
    i: int,
)
    requires
        keyed(a, ka, key),
        keyed(b, kb, key),
        stable_sorted(ka, ia),
        stable_sorted(kb, ib),
        forall|x: T| in_order(a, ia).contains(x) <==> in_order(b, ib).contains(x),
        0 <= i < in_order(a, ia).len(),
        0 <= i < in_order(b, ib).len(),
    ensures
        in_order(a, ia)[i] == in_order(b, ib)[i],
    decreases i,
{
    let s = in_order(a, ia);
    let t = in_order(b, ib);
    assert forall|c: int| 0 <= c < i implies s[c] == t[c] by {
        lemma_strict_agree(a, ka, ia, b, kb, ib, key, c);
    }
    let u = s[i];
    let v = t[i];
    if u != v {
        assert(s.contains(u));
        let bi = choose|bi: int| 0 <= bi < t.len() && t[bi] == u;
        assert(t.contains(v));
        let ci = choose|ci: int| 0 <= ci < s.len() && s[ci] == v;
        if bi < i {
            assert(s[bi] == u);
            lemma_sorted_strict(a, ka, key, ia, bi, i);
            lemma_lex_less_irreflexive(key(u));
        }
        if ci < i {
            assert(t[ci] == v);
            lemma_sorted_strict(b, kb, key, ib, ci, i);
            lemma_lex_less_irreflexive(key(v));
        }
        assert(bi != i && ci != i);
        lemma_sorted_strict(b, kb, key, ib, i, bi);
        lemma_sorted_strict(a, ka, key, ia, i, ci);
        crate::versions::lemma_lex_less_asymmetric(key(u), key(v));
    }
}

/// Two lists holding the same items, each with distinct keys, sorted by key
/// give the same list.
pub proof fn lemma_sorted_same_items<T>(
    a: Seq<T>,
    ka: Seq<Seq<char>>,
    ia: Seq<int>,
    b: Seq<T>,
    kb: Seq<Seq<char>>,
    ib: Seq<int>,
    key: spec_fn(T) -> Seq<char>,
)
    requires
        keyed(a, ka, key),
        keyed(b, kb, key),
        stable_sorted(ka, ia),
        stable_sorted(kb, ib),
        forall|x: T| a.contains(x) <==> b.contains(x),
    ensures
        in_order(a, ia) == in_order(b, ib),
{
    let ra = in_order(a, ia);
    let rb = in_order(b, ib);
    assert forall|x: T| ra.contains(x) <==> rb.contains(x) by {
        lemma_in_order_contains(a, ka, ia, x);
        lemma_in_order_contains(b, kb, ib, x);
    }
    assert forall|i: int| 0 <= i < ra.len() && 0 <= i < rb.len() implies ra[i] == rb[i] by {
        lemma_strict_agree(a, ka, ia, b, kb, ib, key, i);
    }
    if ra.len() < rb.len() {
        let w = rb[ra.len() as int];
        assert(rb.contains(w));
        let c = choose|c: int| 0 <= c < ra.len() && ra[c] == w;
        lemma_strict_agree(a, ka, ia, b, kb, ib, key, c);
        lemma_sorted_strict(b, kb, key, ib, c, ra.len() as int);
        lemma_lex_less_irreflexive(key(w));
    } else if rb.len() < ra.len() {
        let w = ra[rb.len() as int];
        assert(ra.contains(w));
        let c = choose|c: int| 0 <= c < rb.len() && rb[c] == w;
        lemma_strict_agree(a, ka, ia, b, kb, ib, key, c);
        lemma_sorted_strict(a, ka, key, ia, c, rb.len() as int);
        lemma_lex_less_irreflexive(key(w));
    }
    assert(ra =~= rb);
}

/// Two lists holding the same pairs, each with distinct names, sort by name
/// to the same list: the canonical order does not depend on the order the
/// pairs came in.
pub proof fn law_sort_by_name_order_free(
    a: Seq<(Seq<char>, Seq<char>)>,
    b: Seq<(Seq<char>, Seq<char>)>,
    ra: Seq<(Seq<char>, Seq<char>)>,
    rb: Seq<(Seq<char>, Seq<char>)>,
)
    requires
        pair_names(a).no_duplicates(),
        pair_names(b).no_duplicates(),
        forall|x: (Seq<char>, Seq<char>)| a.contains(x) <==> b.contains(x),
        sorts_by_name(a, ra),
        sorts_by_name(b, rb),
    ensures
        ra == rb,
{
    let ia = choose|idx: Seq<int>| #[trigger] stable_sorted(pair_names(a), idx) && ra == permuted(a, idx);
    let ib = choose|idx: Seq<int>| #[trigger] stable_sorted(pair_names(b), idx) && rb == permuted(b, idx);
    let key = |p: (Seq<char>, Seq<char>)| p.0;
    assert(keyed(a, pair_names(a), key));
    assert(keyed(b, pair_names(b), key));
    lemma_sorted_same_items(a, pair_names(a), ia, b, pair_names(b), ib, key);
    assert(permuted(a, ia) =~= in_order(a, ia));
    assert(permuted(b, ib) =~= in_order(b, ib));
}

} // verus!
