//! Walking the entries of a `HashMap` once each, in the map's own order.
use std::collections::HashMap;
use vstd::prelude::*;
use vstd::std_specs::hash::obeys_key_model;
use vstd::std_specs::iter::IteratorSpec;

verus! {

broadcast use vstd::std_specs::hash::group_hash_axioms;

/// `e` lists every entry of `m` exactly once.
pub open spec fn walks<K, V>(e: Seq<(&K, &V)>, m: Map<K, V>) -> bool {
    &&& e.len() == m.len()
    &&& forall|i: int| 0 <= i < e.len() ==> #[trigger] m.contains_key(*e[i].0) && m[*e[i].0] == *e[i].1
    &&& forall|i: int, j: int|
        0 <= i < e.len() && 0 <= j < e.len() && i != j ==> *(#[trigger] e[i]).0 != *(#[trigger] e[j]).0
    &&& forall|k: K| #[trigger] m.contains_key(k) ==> exists|i: int| 0 <= i < e.len() && *e[i].0 == k
}

/// `done` holds exactly the entries of `m` that `e` lists before position `i`.
pub open spec fn walked<K, V>(e: Seq<(&K, &V)>, i: int, done: Map<K, V>, m: Map<K, V>) -> bool {
    &&& 0 <= i <= e.len()
    &&& forall|k: K| #[trigger] done.contains_key(k) ==> m.contains_key(k) && done[k] == m[k]
    &&& forall|j: int| 0 <= j < i ==> #[trigger] done.contains_key(*e[j].0)
    &&& forall|j: int| i <= j < e.len() ==> !(#[trigger] done.contains_key(*e[j].0))
}

pub proof fn lemma_walk_start<K, V>(e: Seq<(&K, &V)>, m: Map<K, V>)
    ensures
        walked(e, 0, Map::empty(), m),
{
}

pub proof fn lemma_walk_step<K, V>(e: Seq<(&K, &V)>, i: int, done: Map<K, V>, m: Map<K, V>)
    requires
        walks(e, m),
        walked(e, i, done, m),
        i < e.len(),
    ensures
        !done.contains_key(*e[i].0),
        m.contains_key(*e[i].0),
        m[*e[i].0] == *e[i].1,
        walked(e, i + 1, done.insert(*e[i].0, *e[i].1), m),
{
    let k = *e[i].0;
    let d2 = done.insert(k, *e[i].1);
    assert(m.contains_key(*e[i].0));
    assert forall|j: int| i + 1 <= j < e.len() implies !(#[trigger] d2.contains_key(*e[j].0)) by {
        assert(*e[i].0 != *e[j].0);
        assert(!done.contains_key(*e[j].0));
    }
    assert forall|j: int| 0 <= j < i + 1 implies #[trigger] d2.contains_key(*e[j].0) by {
        if j < i {
            assert(done.contains_key(*e[j].0));
        }
    }
}

pub proof fn lemma_walk_end<K, V>(e: Seq<(&K, &V)>, done: Map<K, V>, m: Map<K, V>)
    requires
        walks(e, m),
        walked(e, e.len() as int, done, m),
    ensures
        done == m,
{
    assert forall|k: K| m.contains_key(k) implies done.contains_key(k) by {
        let i = choose|i: int| 0 <= i < e.len() && *e[i].0 == k;
        assert(done.contains_key(*e[i].0));
    }
    assert(done =~= m);
}

/// The next item of an iterator, through the trait's own specification.
fn advance<I: Iterator>(iter: &mut I) -> (r: Option<I::Item>)
    ensures
        (*final(iter)).obeys_prophetic_iter_laws() == (*old(iter)).obeys_prophetic_iter_laws(),
        (*old(iter)).obeys_prophetic_iter_laws() ==> if (*old(iter)).remaining().len() > 0 {
            &&& (*final(iter)).remaining() == (*old(iter)).remaining().drop_first()
            &&& r == Some((*old(iter)).remaining()[0])
        } else {
            &&& (*final(iter)).remaining() == (*old(iter)).remaining()
            &&& r is None
        },
{
    iter.next()
}

/// The entries of `m`, each once, in the order in which the map yields them.
/// For a lawful key type they are exactly the entries of `m`.
pub fn entries_of<K, V>(m: &HashMap<K, V>) -> (e: Vec<(&K, &V)>)
    ensures
        obeys_key_model::<K>() ==> walks(e@, m@),
{
    let mut iter = m.iter();
    let ghost s = iter.remaining();
    let n = m.len();
    let mut out: Vec<(&K, &V)> = Vec::new();
    let mut i: usize = 0;
    while i < n
        invariant
            i <= n,
            i <= s.len(),
            out@ == s.take(i as int),
            iter.remaining() == s.skip(i as int),
            obeys_key_model::<K>() ==> s == vstd::std_specs::hash::spec_hash_map_iter(m).remaining(),
            obeys_key_model::<K>() ==> n == m@.len(),
        ensures
            i <= s.len(),
            out@ == s.take(i as int),
            i == n || i == s.len(),
        decreases n - i,
    {
        match advance(&mut iter) {
            Some(entry) => {
                out.push(entry);
                i = i + 1;
            },
            None => {
                assert(s.skip(i as int).len() == 0);
                break;
            },
        }
    }
    proof {
        if obeys_key_model::<K>() {
            assert(out@ =~= s);
            assert(s.no_duplicates());
            assert forall|i: int, j: int| 0 <= i < out@.len() && 0 <= j < out@.len() && i != j
                implies *(#[trigger] out@[i]).0 != *(#[trigger] out@[j]).0 by {
                if *out@[i].0 == *out@[j].0 {
                    assert(m@.contains_key(*s[i].0));
                    assert(m@.contains_key(*s[j].0));
                    assert(*s[i].1 == *s[j].1);
                    assert(s[i] == s[j]);
                }
            }
            assert forall|k: K| #[trigger] m@.contains_key(k) implies exists|i: int|
                0 <= i < out@.len() && *out@[i].0 == k by {
                assert(s.contains((&k, &m@[k])));
                let i = choose|i: int| 0 <= i < s.len() && s[i] == (&k, &m@[k]);
                assert(*out@[i].0 == k);
            }
            assert forall|i: int| 0 <= i < out@.len() implies #[trigger] m@.contains_key(*out@[i].0)
                && m@[*out@[i].0] == *out@[i].1 by {
                assert(out@[i] == s[i]);
                assert(m@.contains_key(*s[i].0));
            }
        }
    }
    out
}

} // verus!
