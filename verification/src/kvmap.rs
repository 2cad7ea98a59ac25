//! Sequences of key-value pairs read as maps.
//!
//! The mutable registries of the library (backend contents, the hash index,
//! the share-link registry) are association lists whose keys stay unique;
//! their contracts speak of the map such a list denotes. This module defines
//! that denotation and proves how it moves under push, update, and removal.

use vstd::prelude::*;

use crate::text::str_eq;

verus! {

/// No two pairs carry the same key.
pub open spec fn unique_keys<V>(ps: Seq<(Seq<char>, V)>) -> bool {
    forall|i: int, j: int|
        0 <= i < j < ps.len() ==> (#[trigger] ps[i]).0 != (#[trigger] ps[j]).0
}

/// The map an association list denotes; on duplicate keys the later pair
/// wins, though every list the library keeps has unique keys.
pub open spec fn map_of<V>(ps: Seq<(Seq<char>, V)>) -> Map<Seq<char>, V>
    decreases ps.len(),
{
    if ps.len() == 0 {
        Map::empty()
    } else {
        map_of(ps.drop_last()).insert(ps.last().0, ps.last().1)
    }
}

/// A key no pair carries is absent from the denoted map.
pub proof fn lemma_map_of_absent<V>(ps: Seq<(Seq<char>, V)>, k: Seq<char>)
    requires
        forall|i: int| 0 <= i < ps.len() ==> (#[trigger] ps[i]).0 != k,
    ensures
        !map_of(ps).dom().contains(k),
    decreases ps.len(),
{
    if ps.len() > 0 {
        lemma_map_of_absent(ps.drop_last(), k);
    }
}

/// Under unique keys, every pair is present in the denoted map with its own
/// value.
pub proof fn lemma_map_of_index<V>(ps: Seq<(Seq<char>, V)>, i: int)
    requires
        unique_keys(ps),
        0 <= i < ps.len(),
    ensures
        map_of(ps).dom().contains(ps[i].0),
        map_of(ps)[ps[i].0] == ps[i].1,
    decreases ps.len(),
{
    if i < ps.len() - 1 {
        assert(ps[i].0 != ps.last().0);
        lemma_map_of_index(ps.drop_last(), i);
    }
}

/// Under unique keys, every key of the denoted map comes from exactly one
/// pair, which also supplies its value.
pub proof fn lemma_map_of_dom_index<V>(ps: Seq<(Seq<char>, V)>, k: Seq<char>)
    requires
        unique_keys(ps),
        map_of(ps).dom().contains(k),
    ensures
        exists|i: int|
            0 <= i < ps.len() && (#[trigger] ps[i]).0 == k && map_of(ps)[k] == ps[i].1,
    decreases ps.len(),
{
    if ps.len() > 0 {
        if ps.last().0 == k {
            let i = ps.len() - 1;
            assert(0 <= i < ps.len() && ps[i].0 == k && map_of(ps)[k] == ps[i].1);
        } else {
            lemma_map_of_dom_index(ps.drop_last(), k);
            let i = choose|i: int|
                0 <= i < ps.drop_last().len() && (#[trigger] ps.drop_last()[i]).0 == k && map_of(
                    ps.drop_last(),
                )[k] == ps.drop_last()[i].1;
            assert(0 <= i < ps.len() && ps[i].0 == k && map_of(ps)[k] == ps[i].1);
        }
    }
}

/// Appending a fresh pair inserts its binding.
pub proof fn lemma_map_of_push<V>(ps: Seq<(Seq<char>, V)>, p: (Seq<char>, V))
    ensures
        map_of(ps.push(p)) == map_of(ps).insert(p.0, p.1),
{
    assert(ps.push(p).drop_last() =~= ps);
    assert(ps.push(p).last() == p);
}

/// Replacing the value at one position rebinds that pair's key.
pub proof fn lemma_map_of_update<V>(ps: Seq<(Seq<char>, V)>, i: int, v: V)
    requires
        unique_keys(ps),
        0 <= i < ps.len(),
    ensures
        map_of(ps.update(i, (ps[i].0, v))) == map_of(ps).insert(ps[i].0, v),
    decreases ps.len(),
{
    let qs = ps.update(i, (ps[i].0, v));
    if i == ps.len() - 1 {
        assert(qs.drop_last() =~= ps.drop_last());
        assert(map_of(qs) == map_of(ps.drop_last()).insert(ps[i].0, v));
        assert(map_of(ps).insert(ps[i].0, v) =~= map_of(ps.drop_last()).insert(ps[i].0, v));
    } else {
        assert(qs.drop_last() =~= ps.drop_last().update(i, (ps[i].0, v)));
        assert(ps.drop_last()[i] == ps[i]);
        lemma_map_of_update(ps.drop_last(), i, v);
        assert(qs.last() == ps.last());
        assert(ps[i].0 != ps.last().0);
        assert(map_of(qs) == map_of(ps.drop_last()).insert(ps[i].0, v).insert(
            ps.last().0,
            ps.last().1,
        ));
        assert(map_of(ps.drop_last()).insert(ps[i].0, v).insert(ps.last().0, ps.last().1)
            =~= map_of(ps.drop_last()).insert(ps.last().0, ps.last().1).insert(ps[i].0, v));
    }
}

/// Removing one position removes that pair's key.
pub proof fn lemma_map_of_remove<V>(ps: Seq<(Seq<char>, V)>, i: int)
    requires
        unique_keys(ps),
        0 <= i < ps.len(),
    ensures
        map_of(ps.remove(i)) == map_of(ps).remove(ps[i].0),
    decreases ps.len(),
{
    let qs = ps.remove(i);
    if i == ps.len() - 1 {
        assert(qs =~= ps.drop_last());
        assert forall|j: int| 0 <= j < ps.drop_last().len() implies (#[trigger] ps.drop_last()[
            j
        ]).0 != ps[i].0 by {
            assert(ps[j].0 != ps[i].0);
        }
        lemma_map_of_absent(ps.drop_last(), ps[i].0);
        assert(map_of(ps).remove(ps[i].0) =~= map_of(ps.drop_last()));
    } else {
        assert(qs.drop_last() =~= ps.drop_last().remove(i));
        assert(ps.drop_last()[i] == ps[i]);
        lemma_map_of_remove(ps.drop_last(), i);
        assert(qs.last() == ps.last());
        assert(ps[i].0 != ps.last().0);
        assert(map_of(qs) == map_of(ps.drop_last()).remove(ps[i].0).insert(
            ps.last().0,
            ps.last().1,
        ));
        assert(map_of(ps.drop_last()).remove(ps[i].0).insert(ps.last().0, ps.last().1)
            =~= map_of(ps.drop_last()).insert(ps.last().0, ps.last().1).remove(ps[i].0));
    }
}


/// Under unique keys the denoted map has exactly one key per pair.
pub proof fn lemma_map_of_dom_len<V>(ps: Seq<(Seq<char>, V)>)
    requires
        unique_keys(ps),
    ensures
        map_of(ps).dom().finite(),
        map_of(ps).dom().len() == ps.len(),
    decreases ps.len(),
{
    if ps.len() > 0 {
        lemma_map_of_dom_len(ps.drop_last());
        assert forall|j: int| 0 <= j < ps.drop_last().len() implies (#[trigger] ps.drop_last()[
            j
        ]).0 != ps.last().0 by {
            assert(ps[j].0 != ps[ps.len() - 1].0);
        }
        lemma_map_of_absent(ps.drop_last(), ps.last().0);
    }
}

/// The pairs a vector of keyed values denotes.
pub open spec fn assoc_pairs<V: View>(v: Seq<(String, V)>) -> Seq<(Seq<char>, V::V)> {
    v.map(|i: int, p: (String, V)| (p.0@, p.1@))
}

/// The position holding `key`, if any.
pub fn assoc_find<V: View>(v: &Vec<(String, V)>, key: &str) -> (r: Option<usize>)
    ensures
        r matches Some(i) ==> i < v@.len() && v@[i as int].0@ == key@,
        r is None ==> !map_of(assoc_pairs(v@)).dom().contains(key@),
{
    let mut i: usize = 0;
    while i < v.len()
        invariant
            0 <= i <= v@.len(),
            forall|j: int| 0 <= j < i ==> (#[trigger] v@[j]).0@ != key@,
        decreases v@.len() - i,
    {
        if str_eq(v[i].0.as_str(), key) {
            return Some(i);
        }
        i += 1;
    }
    proof {
        assert forall|j: int| 0 <= j < assoc_pairs(v@).len() implies (#[trigger] assoc_pairs(
            v@,
        )[j]).0 != key@ by {
            assert(assoc_pairs(v@)[j].0 == v@[j].0@);
        }
        lemma_map_of_absent(assoc_pairs(v@), key@);
    }
    None
}

/// A borrow of the value stored under `key`, if any.
pub fn assoc_get<'a, V: View>(v: &'a Vec<(String, V)>, key: &str) -> (r: Option<&'a V>)
    requires
        unique_keys(assoc_pairs(v@)),
    ensures
        r matches Some(x) ==> map_of(assoc_pairs(v@)).dom().contains(key@) && x@ == map_of(
            assoc_pairs(v@),
        )[key@],
        r is None ==> !map_of(assoc_pairs(v@)).dom().contains(key@),
{
    match assoc_find(v, key) {
        Some(i) => {
            proof {
                lemma_map_of_index(assoc_pairs(v@), i as int);
            }
            Some(&v[i].1)
        },
        None => None,
    }
}

/// Binds `key` to `val`, replacing any earlier binding.
pub fn assoc_insert<V: View>(v: &mut Vec<(String, V)>, key: String, val: V)
    requires
        unique_keys(assoc_pairs(old(v)@)),
    ensures
        unique_keys(assoc_pairs(final(v)@)),
        map_of(assoc_pairs(final(v)@)) == map_of(assoc_pairs(old(v)@)).insert(key@, val@),
        final(v)@.len() == if map_of(assoc_pairs(old(v)@)).dom().contains(key@) {
            old(v)@.len() as int
        } else {
            old(v)@.len() + 1 as int
        },
        forall|i: int|
            0 <= i < final(v)@.len() ==> old(v)@.contains(#[trigger] final(v)@[i]) || final(v)@[i]
                == (key, val),
{
    let ghost old_pairs = assoc_pairs(v@);
    match assoc_find(v, key.as_str()) {
        Some(i) => {
            proof {
                assert(old_pairs[i as int].0 == key@);
                lemma_map_of_index(old_pairs, i as int);
                lemma_map_of_update(old_pairs, i as int, val@);
            }
            v.set(i, (key, val));
            proof {
                assert(assoc_pairs(v@) =~= old_pairs.update(i as int, (key@, val@)));
                assert(old_pairs.update(i as int, (key@, val@)) =~= old_pairs.update(
                    i as int,
                    (old_pairs[i as int].0, val@),
                ));
                assert forall|a: int, b: int|
                    0 <= a < b < assoc_pairs(v@).len() implies (#[trigger] assoc_pairs(v@)[a]).0
                    != (#[trigger] assoc_pairs(v@)[b]).0 by {
                    assert(old_pairs[a].0 != old_pairs[b].0);
                    assert(assoc_pairs(v@)[a].0 == old_pairs[a].0);
                    assert(assoc_pairs(v@)[b].0 == old_pairs[b].0);
                }
            }
        },
        None => {
            proof {
                lemma_map_of_push(old_pairs, (key@, val@));
                assert forall|j: int| 0 <= j < old_pairs.len() implies (#[trigger] old_pairs[j]).0
                    != key@ by {
                    lemma_map_of_index(old_pairs, j);
                }
            }
            v.push((key, val));
            proof {
                assert(assoc_pairs(v@) =~= old_pairs.push((key@, val@)));
            }
        },
    }
}

/// Removes the binding of `key`, handing back its value.
pub fn assoc_remove<V: View>(v: &mut Vec<(String, V)>, key: &str) -> (r: Option<V>)
    requires
        unique_keys(assoc_pairs(old(v)@)),
    ensures
        unique_keys(assoc_pairs(final(v)@)),
        r matches Some(x) ==> map_of(assoc_pairs(old(v)@)).dom().contains(key@) && x@ == map_of(
            assoc_pairs(old(v)@),
        )[key@] && map_of(assoc_pairs(final(v)@)) == map_of(assoc_pairs(old(v)@)).remove(key@)
            && final(v)@.len() == old(v)@.len() - 1,
        forall|i: int| 0 <= i < final(v)@.len() ==> old(v)@.contains(#[trigger] final(v)@[i]),
        r is None ==> !map_of(assoc_pairs(old(v)@)).dom().contains(key@) && final(v)@ == old(v)@,
{
    let ghost old_pairs = assoc_pairs(v@);
    match assoc_find(v, key) {
        Some(i) => {
            proof {
                lemma_map_of_index(old_pairs, i as int);
                lemma_map_of_remove(old_pairs, i as int);
            }
            let pair = v.remove(i);
            proof {
                assert(assoc_pairs(v@) =~= old_pairs.remove(i as int));
                assert forall|a: int, b: int|
                    0 <= a < b < assoc_pairs(v@).len() implies (#[trigger] assoc_pairs(v@)[a]).0
                    != (#[trigger] assoc_pairs(v@)[b]).0 by {
                    let aa = if a < i as int { a } else { a + 1 };
                    let bb = if b < i as int { b } else { b + 1 };
                    assert(old_pairs[aa].0 != old_pairs[bb].0);
                }
            }
            Some(pair.1)
        },
        None => None,
    }
}

/// Filtering pairs with unique keys keeps the keys unique.
pub proof fn lemma_filter_unique_keys<V>(
    ps: Seq<(Seq<char>, V)>,
    pred: spec_fn((Seq<char>, V)) -> bool,
)
    requires
        unique_keys(ps),
    ensures
        unique_keys(ps.filter(pred)),
    decreases ps.len(),
{
    broadcast use Seq::lemma_filter_push;

    if ps.len() > 0 {
        let rest = ps.drop_last();
        assert(ps =~= rest.push(ps.last()));
        assert forall|a: int, b: int| 0 <= a < b < rest.len() implies (#[trigger] rest[a]).0 != (
        #[trigger] rest[b]).0 by {
            assert(ps[a].0 != ps[b].0);
        }
        lemma_filter_unique_keys(rest, pred);
        let fr = rest.filter(pred);
        if pred(ps.last()) {
            assert(ps.filter(pred) == fr.push(ps.last()));
            assert forall|a: int, b: int|
                0 <= a < b < ps.filter(pred).len() implies (#[trigger] ps.filter(pred)[a]).0 != (
            #[trigger] ps.filter(pred)[b]).0 by {
                if b == ps.filter(pred).len() - 1 {
                    Seq::lemma_filter_contains_rev(rest, pred, fr[a]);
                    let j = choose|j: int| 0 <= j < rest.len() && rest[j] == fr[a];
                    assert(ps[j].0 != ps.last().0);
                } else {
                    assert(fr[a].0 != fr[b].0);
                }
            }
        } else {
            assert(ps.filter(pred) == fr);
        }
    }
}

} // verus!
