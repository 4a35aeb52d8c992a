//! Association lists: a `Vec` of key/value pairs read as a map in which the
//! last pair of a key is the one that counts.
use vstd::prelude::*;

verus! {

/// Value of the last pair whose key views as `k`.
pub open spec fn lookup<K: View, V>(s: Seq<(K, V)>, k: K::V) -> Option<V>
    decreases s.len(),
{
    if s.len() == 0 {
        None
    } else if s.last().0@ == k {
        Some(s.last().1)
    } else {
        lookup(s.drop_last(), k)
    }
}

/// The pairs whose key is not `k`, in their order.
pub open spec fn without<K: View, V>(s: Seq<(K, V)>, k: K::V) -> Seq<(K, V)> {
    s.filter(|e: (K, V)| e.0@ != k)
}

/// Removing a key leaves every other key as it was.
pub proof fn lemma_lookup_without<K: View, V>(s: Seq<(K, V)>, k: K::V, k2: K::V)
    ensures
        lookup(without(s, k), k2) == (if k2 == k { None } else { lookup(s, k2) }),
    decreases s.len(),
{
    reveal(Seq::filter);
    if s.len() > 0 {
        let w = without(s.drop_last(), k);
        lemma_lookup_without(s.drop_last(), k, k2);
        if s.last().0@ != k {
            assert(without(s, k) == w.push(s.last()));
            lemma_lookup_push(w, s.last(), k2);
        } else {
            assert(without(s, k) == w);
        }
    }
}

/// Appending a pair makes its key map to its value.
pub proof fn lemma_lookup_push<K: View, V>(s: Seq<(K, V)>, e: (K, V), k2: K::V)
    ensures
        lookup(s.push(e), k2) == (if k2 == e.0@ { Some(e.1) } else { lookup(s, k2) }),
{
    assert(s.push(e).drop_last() =~= s);
}

proof fn lemma_step<K: View, V>(orig: Seq<(K, V)>, i: int, k: K::V)
    requires
        0 <= i < orig.len(),
    ensures
        without(orig.subrange(0, i + 1), k) == (if orig[i].0@ != k {
            without(orig.subrange(0, i), k).push(orig[i])
        } else {
            without(orig.subrange(0, i), k)
        }),
        lookup(orig.subrange(0, i + 1), k) == (if orig[i].0@ == k {
            Some(orig[i].1)
        } else {
            lookup(orig.subrange(0, i), k)
        }),
{
    reveal(Seq::filter);
    assert(orig.subrange(0, i + 1).drop_last() =~= orig.subrange(0, i));
}

/// Value of the last pair whose key is `k`.
pub fn get_str<'a, V>(s: &'a Vec<(String, V)>, k: &String) -> (r: Option<&'a V>)
    ensures
        match r {
            Some(v) => lookup(s@, k@) == Some(*v),
            None => lookup(s@, k@) is None,
        },
{
    let mut i: usize = s.len();
    assert(s@.subrange(0, i as int) =~= s@);
    while i > 0
        invariant
            i <= s@.len(),
            lookup(s@, k@) == lookup(s@.subrange(0, i as int), k@),
        decreases i,
    {
        proof {
            lemma_step(s@, i - 1, k@);
        }
        if s[i - 1].0 == *k {
            return Some(&s[i - 1].1);
        }
        i = i - 1;
    }
    None
}

/// Takes out every pair whose key is `k`, and returns the value that counted.
pub fn extract_str<V>(s: &mut Vec<(String, V)>, k: &String) -> (r: Option<V>)
    ensures
        r == lookup(old(s)@, k@),
        final(s)@ == without(old(s)@, k@),
{
    let mut rest: Vec<(String, V)> = Vec::new();
    std::mem::swap(s, &mut rest);
    let ghost orig = rest@;
    let n: usize = rest.len();
    let mut found: Option<V> = None;
    let mut i: usize = 0;
    assert(orig.subrange(0, 0) =~= Seq::<(String, V)>::empty());
    proof {
        reveal(Seq::filter);
    }
    while rest.len() > 0
        invariant
            orig == old(s)@,
            orig.len() == n,
            orig.len() == i + rest@.len(),
            rest@ == orig.subrange(i as int, orig.len() as int),
            s@ == without(orig.subrange(0, i as int), k@),
            found == lookup(orig.subrange(0, i as int), k@),
        decreases rest@.len(),
    {
        let e = rest.remove(0);
        proof {
            lemma_step(orig, i as int, k@);
        }
        if e.0 == *k {
            found = Some(e.1);
        } else {
            s.push(e);
        }
        i = i + 1;
        assert(rest@ =~= orig.subrange(i as int, orig.len() as int));
    }
    assert(orig.subrange(0, i as int) =~= orig);
    found
}

/// Sets key `k` to `v`, dropping the pairs it had before.
pub fn put_str<V>(s: &mut Vec<(String, V)>, k: String, v: V)
    ensures
        final(s)@ == without(old(s)@, k@).push((k, v)),
{
    let _ = extract_str(s, &k);
    s.push((k, v));
}

/// Keys of the pairs, in their order.
pub fn keys_str<V>(s: &Vec<(String, V)>) -> (r: Vec<String>)
    ensures
        r@.len() == s@.len(),
        forall|i: int| 0 <= i < s@.len() ==> #[trigger] r@[i]@ == s@[i].0@,
{
    let mut r: Vec<String> = Vec::new();
    let mut i: usize = 0;
    while i < s.len()
        invariant
            i <= s@.len(),
            r@.len() == i,
            forall|j: int| 0 <= j < i ==> #[trigger] r@[j]@ == s@[j].0@,
        decreases s@.len() - i,
    {
        r.push(s[i].0.clone());
        i = i + 1;
    }
    r
}

/// No two pairs share a key.
pub open spec fn keys_unique<K: View, V>(s: Seq<(K, V)>) -> bool {
    forall|i: int, j: int| 0 <= i < j < s.len() ==> (#[trigger] s[i]).0@ != (#[trigger] s[j]).0@
}

/// Every pair left after removing a key was a pair of the list, with
/// another key.
pub proof fn lemma_without_elems<K: View, V>(s: Seq<(K, V)>, k: K::V)
    ensures
        forall|i: int| 0 <= i < without(s, k).len() ==> #[trigger] s.contains(without(s, k)[i]) && without(s, k)[i].0@ != k,
    decreases s.len(),
{
    reveal(Seq::filter);
    if s.len() > 0 {
        let w0 = without(s.drop_last(), k);
        lemma_without_elems(s.drop_last(), k);
        assert forall|i: int| 0 <= i < without(s, k).len() implies #[trigger] s.contains(without(s, k)[i]) && without(s, k)[i].0@ != k by {
            if i < w0.len() {
                assert(without(s, k)[i] == w0[i]);
                assert(s.drop_last().contains(w0[i]));
                let j = choose|j: int| 0 <= j < s.drop_last().len() && s.drop_last()[j] == w0[i];
                assert(s[j] == w0[i]);
            } else {
                assert(without(s, k)[i] == s.last());
                assert(s[s.len() - 1] == s.last());
            }
        }
    }
}

/// Removing a key from a list with unique keys leaves unique keys.
pub proof fn lemma_without_unique<K: View, V>(s: Seq<(K, V)>, k: K::V)
    requires
        keys_unique(s),
    ensures
        keys_unique(without(s, k)),
    decreases s.len(),
{
    reveal(Seq::filter);
    if s.len() > 0 {
        let d = s.drop_last();
        let w0 = without(d, k);
        assert(keys_unique(d)) by {
            assert forall|i: int, j: int| 0 <= i < j < d.len() implies (#[trigger] d[i]).0@ != (#[trigger] d[j]).0@ by {
                assert(d[i] == s[i] && d[j] == s[j]);
            }
        }
        lemma_without_unique(d, k);
        lemma_without_elems(d, k);
        let w = without(s, k);
        assert forall|i: int, j: int| 0 <= i < j < w.len() implies (#[trigger] w[i]).0@ != (#[trigger] w[j]).0@ by {
            if j < w0.len() {
                assert(w[i] == w0[i] && w[j] == w0[j]);
            } else {
                assert(w[j] == s.last());
                assert(w[i] == w0[i]);
                assert(d.contains(w0[i]));
                let m = choose|m: int| 0 <= m < d.len() && d[m] == w0[i];
                assert(s[m] == d[m]);
                assert(s[s.len() - 1] == s.last());
            }
        }
    }
}

/// Setting a key in a list with unique keys leaves unique keys.
pub proof fn lemma_put_unique<K: View, V>(s: Seq<(K, V)>, e: (K, V))
    requires
        keys_unique(s),
    ensures
        keys_unique(without(s, e.0@).push(e)),
{
    lemma_without_unique(s, e.0@);
    lemma_without_elems(s, e.0@);
    let w = without(s, e.0@);
    let t = w.push(e);
    assert forall|i: int, j: int| 0 <= i < j < t.len() implies (#[trigger] t[i]).0@ != (#[trigger] t[j]).0@ by {
        assert(t[i] == w[i]);
        if j < w.len() {
            assert(t[j] == w[j]);
        }
    }
}

/// A value that a key maps to is the value of some pair.
pub proof fn lemma_lookup_elem<K: View, V>(s: Seq<(K, V)>, k: K::V)
    ensures
        lookup(s, k) matches Some(v) ==> exists|i: int| 0 <= i < s.len() && (#[trigger] s[i]).1 == v,
    decreases s.len(),
{
    if s.len() > 0 {
        lemma_lookup_elem(s.drop_last(), k);
        if s.last().0@ != k {
            if let Some(v) = lookup(s, k) {
                let i = choose|i: int| 0 <= i < s.drop_last().len() && (#[trigger] s.drop_last()[i]).1 == v;
                assert(s[i] == s.drop_last()[i]);
            }
        } else {
            assert(s[s.len() - 1] == s.last());
        }
    }
}

/// Removing key `k1` and then setting a pair keeps keys unique and keeps a
/// property that every value had.
pub proof fn lemma_replace<K: View, V>(s: Seq<(K, V)>, k1: K::V, e: (K, V), p: spec_fn(V) -> bool)
    requires
        keys_unique(s),
        forall|i: int| 0 <= i < s.len() ==> p(#[trigger] s[i].1),
        p(e.1),
    ensures
        keys_unique(without(without(s, k1), e.0@).push(e)),
        forall|i: int| 0 <= i < without(without(s, k1), e.0@).push(e).len() ==> p(
            #[trigger] without(without(s, k1), e.0@).push(e)[i].1,
        ),
        keys_unique(without(s, k1)),
        forall|i: int| 0 <= i < without(s, k1).len() ==> p(#[trigger] without(s, k1)[i].1),
{
    let w1 = without(s, k1);
    lemma_without_unique(s, k1);
    lemma_without_elems(s, k1);
    assert forall|i: int| 0 <= i < w1.len() implies p(#[trigger] w1[i].1) by {
        assert(s.contains(w1[i]));
    }
    lemma_put_unique(w1, e);
    lemma_without_elems(w1, e.0@);
    let t = without(w1, e.0@).push(e);
    assert forall|i: int| 0 <= i < t.len() implies p(#[trigger] t[i].1) by {
        if i < t.len() - 1 {
            assert(t[i] == without(w1, e.0@)[i]);
            assert(w1.contains(t[i]));
        }
    }
}

} // verus!
