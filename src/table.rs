//! Association lists: a `Vec<(K, V)>` read as a finite map in which the
//! last entry for a key wins.
use vstd::prelude::*;

verus! {

/// The value stored for `k`, taken from the last entry with that key.
pub open spec fn lookup<K, V>(s: Seq<(K, V)>, k: K) -> Option<V>
    decreases s.len(),
{
    if s.len() == 0 {
        None
    } else if s.last().0 == k {
        Some(s.last().1)
    } else {
        lookup(s.drop_last(), k)
    }
}

/// The finite map that an association list stands for.
pub open spec fn as_map<K, V>(s: Seq<(K, V)>) -> Map<K, V> {
    Map::new(|k: K| lookup(s, k) is Some, |k: K| lookup(s, k).unwrap())
}

/// Keeps the entries whose key satisfies `p`.
pub open spec fn keep<K, V>(s: Seq<(K, V)>, p: spec_fn(K) -> bool) -> Seq<(K, V)> {
    s.filter(|e: (K, V)| p(e.0))
}

pub proof fn lemma_lookup_absent<K, V>(s: Seq<(K, V)>, k: K)
    requires
        forall|j: int| 0 <= j < s.len() ==> s[j].0 != k,
    ensures
        lookup(s, k) is None,
    decreases s.len(),
{
    if s.len() > 0 {
        assert(s.drop_last().len() == s.len() - 1);
        assert forall|j: int| 0 <= j < s.drop_last().len() implies s.drop_last()[j].0 != k by {
            assert(s.drop_last()[j] == s[j]);
        }
        lemma_lookup_absent(s.drop_last(), k);
    }
}

pub proof fn lemma_lookup_at<K, V>(s: Seq<(K, V)>, i: int, k: K)
    requires
        0 <= i < s.len(),
        s[i].0 == k,
        forall|j: int| i < j < s.len() ==> s[j].0 != k,
    ensures
        lookup(s, k) == Some(s[i].1),
    decreases s.len(),
{
    if i < s.len() - 1 {
        assert forall|j: int| i < j < s.drop_last().len() implies s.drop_last()[j].0 != k by {
            assert(s.drop_last()[j] == s[j]);
        }
        lemma_lookup_at(s.drop_last(), i, k);
    }
}

pub proof fn lemma_lookup_push<K, V>(s: Seq<(K, V)>, k: K, v: V, k2: K)
    ensures
        lookup(s.push((k, v)), k2) == if k2 == k { Some(v) } else { lookup(s, k2) },
{
    assert(s.push((k, v)).drop_last() =~= s);
}

pub proof fn lemma_lookup_update<K, V>(s: Seq<(K, V)>, i: int, k: K, v: V, k2: K)
    requires
        0 <= i < s.len(),
        s[i].0 == k,
        forall|j: int| i < j < s.len() ==> s[j].0 != k,
    ensures
        lookup(s.update(i, (k, v)), k2) == if k2 == k { Some(v) } else { lookup(s, k2) },
    decreases s.len(),
{
    let t = s.update(i, (k, v));
    if i == s.len() - 1 {
        assert(t.drop_last() =~= s.drop_last());
    } else {
        assert(t.drop_last() =~= s.drop_last().update(i, (k, v)));
        assert forall|j: int| i < j < s.drop_last().len() implies s.drop_last()[j].0 != k by {
            assert(s.drop_last()[j] == s[j]);
        }
        lemma_lookup_update(s.drop_last(), i, k, v, k2);
    }
}

pub proof fn lemma_keep_push<K, V>(s: Seq<(K, V)>, e: (K, V), p: spec_fn(K) -> bool)
    ensures
        keep(s.push(e), p) == if p(e.0) {
            keep(s, p).push(e)
        } else {
            keep(s, p)
        },
{
    s.lemma_filter_push(e, |x: (K, V)| p(x.0));
}

pub proof fn lemma_lookup_keep<K, V>(s: Seq<(K, V)>, p: spec_fn(K) -> bool, k: K)
    ensures
        lookup(keep(s, p), k) == if p(k) { lookup(s, k) } else { None },
    decreases s.len(),
{
    reveal(Seq::filter);
    if s.len() > 0 {
        lemma_lookup_keep(s.drop_last(), p, k);
        let f = |e: (K, V)| p(e.0);
        if p(s.last().0) {
            assert(keep(s, p) == s.drop_last().filter(f).push(s.last()));
            assert(s.drop_last().filter(f).push(s.last()).drop_last() =~= s.drop_last().filter(f));
        } else {
            assert(keep(s, p) == s.drop_last().filter(f));
        }
    }
}

pub proof fn lemma_push_contains<A>(s: Seq<A>, e: A, x: A)
    ensures
        s.push(e).contains(x) <==> (s.contains(x) || x == e),
{
    if s.push(e).contains(x) {
        let k = choose|k: int| 0 <= k < s.push(e).len() && s.push(e)[k] == x;
        if k < s.len() {
            assert(s[k] == x);
        }
    }
    if s.contains(x) {
        let k = choose|k: int| 0 <= k < s.len() && s[k] == x;
        assert(s.push(e)[k] == x);
    }
    if x == e {
        assert(s.push(e)[s.len() as int] == e);
    }
}

pub proof fn lemma_prefix_push<A>(s: Seq<A>, i: int)
    requires
        0 <= i < s.len(),
    ensures
        s.subrange(0, i + 1) == s.subrange(0, i).push(s[i]),
{
    assert(s.subrange(0, i + 1) =~= s.subrange(0, i).push(s[i]));
}

pub proof fn lemma_lookup_some<K, V>(s: Seq<(K, V)>, j: int, k: K)
    requires
        0 <= j < s.len(),
        s[j].0 == k,
    ensures
        lookup(s, k) is Some,
    decreases s.len(),
{
    if s.last().0 != k {
        assert(s.drop_last()[j] == s[j]);
        lemma_lookup_some(s.drop_last(), j, k);
    }
}

pub proof fn lemma_concat_contains<A>(a: Seq<A>, b: Seq<A>, x: A)
    ensures
        (a + b).contains(x) <==> (a.contains(x) || b.contains(x)),
{
    if (a + b).contains(x) {
        let k = choose|k: int| 0 <= k < (a + b).len() && (a + b)[k] == x;
        if k < a.len() {
            assert(a[k] == x);
        } else {
            assert(b[k - a.len()] == x);
        }
    }
    if a.contains(x) {
        let k = choose|k: int| 0 <= k < a.len() && a[k] == x;
        assert((a + b)[k] == x);
    }
    if b.contains(x) {
        let k = choose|k: int| 0 <= k < b.len() && b[k] == x;
        assert((a + b)[k + a.len()] == x);
    }
}

} // verus!
