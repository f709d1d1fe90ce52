//! Keeping the first of each group of items that share a key, in order: how
//! a set of paths is made free of repeats.
use vstd::prelude::*;

use crate::text::strs;

verus! {

broadcast use vstd::seq_lib::group_seq_properties;

/// Whether item `i` is the first whose key is `keys[i]`.
pub open spec fn first_of_key(keys: Seq<Seq<char>>, i: int) -> bool {
    !keys.take(i).contains(keys[i])
}

/// The items whose key no earlier item has, in order; `keys[i]` is the key
/// of `items[i]`.
pub open spec fn first_occurrences(items: Seq<Seq<char>>, keys: Seq<Seq<char>>) -> Seq<Seq<char>>
    decreases items.len(),
{
    if items.len() == 0 {
        Seq::<Seq<char>>::empty()
    } else {
        let prev = first_occurrences(items.drop_last(), keys);
        if first_of_key(keys, items.len() - 1) {
            prev.push(items.last())
        } else {
            prev
        }
    }
}

/// Whether `v` holds `x`.
pub fn contains_string(v: &Vec<String>, x: &String) -> (b: bool)
    ensures
        b == strs(v@).contains(x@),
{
    for i in 0..v.len()
        invariant
            forall|j: int| 0 <= j < i ==> strs(v@)[j] != x@,
    {
        if v[i] == *x {
            assert(strs(v@)[i as int] == x@);
            return true;
        }
    }
    false
}

/// The items whose key no earlier item has, in order.
pub fn keep_first(items: &Vec<String>, keys: &Vec<String>) -> (res: Vec<String>)
    requires
        items@.len() == keys@.len(),
    ensures
        strs(res@) == first_occurrences(strs(items@), strs(keys@)),
{
    let ghost ks = strs(keys@);
    let mut seen: Vec<String> = Vec::new();
    let mut res: Vec<String> = Vec::new();
    for i in 0..items.len()
        invariant
            items@.len() == keys@.len(),
            ks == strs(keys@),
            strs(res@) == first_occurrences(strs(items@).take(i as int), ks),
            forall|k: Seq<char>| strs(seen@).contains(k) <==> ks.take(i as int).contains(k),
    {
        let ghost before = strs(res@);
        let ghost its = strs(items@).take(i + 1);
        assert(its.drop_last() =~= strs(items@).take(i as int));
        assert(ks.take(i + 1) =~= ks.take(i as int).push(ks[i as int]));
        let ghost old_seen = strs(seen@);
        let known = contains_string(&seen, &keys[i]);
        assert(keys@[i as int]@ == ks[i as int]);
        assert(known == ks.take(i as int).contains(ks[i as int]));
        if !known {
            seen.push(keys[i].clone());
            assert(strs(seen@) =~= old_seen.push(ks[i as int]));
            res.push(items[i].clone());
            assert(strs(res@) =~= before.push(its.last()));
        }
        assert forall|k: Seq<char>| strs(seen@).contains(k) <==> ks.take(i + 1).contains(k) by {
            let t = ks.take(i + 1);
            if t.contains(k) && !ks.take(i as int).contains(k) {
                let j = choose|j: int| 0 <= j < t.len() && t[j] == k;
                if j < i {
                    assert(ks.take(i as int)[j] == k);
                }
                assert(k == ks[i as int]);
            }
            if ks.take(i as int).contains(k) {
                let j = choose|j: int| 0 <= j < i && ks.take(i as int)[j] == k;
                assert(t[j] == k);
            }
            if !known {
                if strs(seen@).contains(k) && k != ks[i as int] {
                    let j = choose|j: int| 0 <= j < strs(seen@).len() && strs(seen@)[j] == k;
                    assert(old_seen[j] == k);
                }
                if k == ks[i as int] {
                    assert(strs(seen@)[old_seen.len() as int] == k);
                    assert(t[i as int] == k);
                }
                if old_seen.contains(k) {
                    let j = choose|j: int| 0 <= j < old_seen.len() && old_seen[j] == k;
                    assert(strs(seen@)[j] == k);
                }
            } else {
                assert(strs(seen@) == old_seen);
            }
        }
    }
    assert(strs(items@).take(items.len() as int) =~= strs(items@));
    res
}

/// Every item kept is one of the items.
pub proof fn lemma_first_occurrences_from_items(items: Seq<Seq<char>>, keys: Seq<Seq<char>>)
    ensures
        forall|x: Seq<char>| first_occurrences(items, keys).contains(x) ==> items.contains(x),
    decreases items.len(),
{
    if items.len() > 0 {
        lemma_first_occurrences_from_items(items.drop_last(), keys);
        assert forall|x: Seq<char>| first_occurrences(items, keys).contains(x) implies items.contains(
            x,
        ) by {
            if first_occurrences(items.drop_last(), keys).contains(x) {
                assert(items.drop_last().contains(x));
                let j = choose|j: int| 0 <= j < items.drop_last().len() && items.drop_last()[j] == x;
                assert(items[j] == x);
            } else {
                assert(x == items.last());
                assert(items[items.len() - 1] == x);
            }
        }
    }
}

/// With `key` giving the keys: the keys of the items kept are the keys of
/// all items, and no two kept items share a key.
pub proof fn lemma_first_occurrences_keys(
    items: Seq<Seq<char>>,
    keys: Seq<Seq<char>>,
    key: spec_fn(Seq<char>) -> Seq<char>,
)
    requires
        items.len() <= keys.len(),
        forall|i: int| 0 <= i < items.len() ==> keys[i] == key(#[trigger] items[i]),
    ensures
        forall|k: Seq<char>|
            first_occurrences(items, keys).map_values(key).contains(k) <==> keys.take(
                items.len() as int,
            ).contains(k),
        first_occurrences(items, keys).map_values(key).no_duplicates(),
    decreases items.len(),
{
    let res = first_occurrences(items, keys);
    if items.len() == 0 {
        assert(res.map_values(key) =~= Seq::<Seq<char>>::empty());
    } else {
        let n = items.len() - 1;
        let prev = first_occurrences(items.drop_last(), keys);
        lemma_first_occurrences_keys(items.drop_last(), keys, key);
        assert(keys.take(n + 1) =~= keys.take(n).push(keys[n]));
        assert(keys[n] == key(items[n]));
        if first_of_key(keys, n) {
            assert(res.map_values(key) =~= prev.map_values(key).push(keys[n]));
            assert forall|k: Seq<char>| res.map_values(key).contains(k) <==> keys.take(n + 1).contains(k) by {
                if res.map_values(key).contains(k) && k != keys[n] {
                    let r = res.map_values(key);
                    let j = choose|j: int| 0 <= j < r.len() && r[j] == k;
                    assert(prev.map_values(key)[j] == k);
                }
                if keys.take(n + 1).contains(k) && k != keys[n] {
                    let t = keys.take(n + 1);
                    let j = choose|j: int| 0 <= j < t.len() && t[j] == k;
                    assert(keys.take(n)[j] == k);
                }
                if k == keys[n] {
                    assert(res.map_values(key)[prev.len() as int] == k);
                    assert(keys.take(n + 1)[n] == k);
                }
            }
            assert forall|a: int, b: int|
                0 <= a < res.map_values(key).len() && 0 <= b < res.map_values(key).len() && a
                    != b implies res.map_values(key)[a] != res.map_values(key)[b] by {
                if a == prev.len() {
                    assert(prev.map_values(key).contains(res.map_values(key)[b]));
                } else if b == prev.len() {
                    assert(prev.map_values(key).contains(res.map_values(key)[a]));
                } else {
                    assert(res.map_values(key)[a] == prev.map_values(key)[a]);
                    assert(res.map_values(key)[b] == prev.map_values(key)[b]);
                }
            }
        } else {
            assert forall|k: Seq<char>| res.map_values(key).contains(k) <==> keys.take(n + 1).contains(k) by {
                if keys.take(n + 1).contains(k) && k != keys[n] {
                    let t = keys.take(n + 1);
                    let j = choose|j: int| 0 <= j < t.len() && t[j] == k;
                    assert(keys.take(n)[j] == k);
                }
            }
        }
    }
}

} // verus!
