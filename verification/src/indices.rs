//! The keys of a hash map, and sums over a finite set of share indices.

use std::collections::HashMap;

use vstd::prelude::*;
use vstd::std_specs::hash::{group_hash_axioms, spec_keys_iter};
use vstd::std_specs::iter::IteratorSpec;

use crate::modular::{cong, lemma_cong_ops};

verus! {

/// The sum of `f(k)` over the members `k` of a finite set.
pub open spec fn sum_over(keys: Set<u32>, f: spec_fn(u32) -> int) -> int
    decreases keys.len(),
{
    if keys.finite() && keys.len() > 0 {
        let k = keys.choose();
        f(k) + sum_over(keys.remove(k), f)
    } else {
        0
    }
}

/// Any member can be taken out of a sum.
pub proof fn lemma_sum_remove(keys: Set<u32>, f: spec_fn(u32) -> int, k: u32)
    requires
        keys.finite(),
        keys.contains(k),
    ensures
        sum_over(keys, f) == f(k) + sum_over(keys.remove(k), f),
    decreases keys.len(),
{
    let c = keys.choose();
    if c != k {
        lemma_sum_remove(keys.remove(c), f, k);
        lemma_sum_remove(keys.remove(k), f, c);
        assert(keys.remove(c).remove(k) =~= keys.remove(k).remove(c));
    }
}

/// A new member adds its own term.
pub proof fn lemma_sum_insert(keys: Set<u32>, f: spec_fn(u32) -> int, k: u32)
    requires
        keys.finite(),
        !keys.contains(k),
    ensures
        sum_over(keys.insert(k), f) == f(k) + sum_over(keys, f),
{
    lemma_sum_remove(keys.insert(k), f, k);
    assert(keys.insert(k).remove(k) =~= keys);
}

/// One more of the keys in a list without repetitions adds one more term.
pub proof fn lemma_sum_prefix(keys: Seq<u32>, f: spec_fn(u32) -> int, i: int)
    requires
        keys.no_duplicates(),
        0 <= i < keys.len(),
    ensures
        sum_over(keys.take(i + 1).to_set(), f) == sum_over(keys.take(i).to_set(), f) + f(keys[i]),
{
    let before = keys.take(i);
    let after = keys.take(i + 1);
    assert forall|k: u32| after.contains(k) <==> before.contains(k) || k == keys[i] by {
        if before.contains(k) {
            let j = before.index_of(k);
            assert(after[j] == k);
        }
        assert(after[i] == keys[i]);
        if after.contains(k) && k != keys[i] {
            let j = after.index_of(k);
            assert(before[j] == k);
        }
    }
    assert(after.to_set() =~= before.to_set().insert(keys[i]));
    assert(!before.contains(keys[i]));
    vstd::seq_lib::seq_to_set_is_finite(before);
    lemma_sum_insert(before.to_set(), f, keys[i]);
}

/// Over two disjoint sets together the sum is the sum of the two sums.
pub proof fn lemma_sum_union(a: Set<u32>, b: Set<u32>, f: spec_fn(u32) -> int)
    requires
        a.finite(),
        b.finite(),
        a.disjoint(b),
    ensures
        sum_over(a.union(b), f) == sum_over(a, f) + sum_over(b, f),
    decreases b.len(),
{
    if b.len() == 0 {
        assert(a.union(b) =~= a);
    } else {
        let k = b.choose();
        assert(a.union(b).remove(k) =~= a.union(b.remove(k)));
        lemma_sum_union(a, b.remove(k), f);
        lemma_sum_remove(a.union(b), f, k);
    }
}

/// Sums of congruent terms are congruent.
pub proof fn lemma_sum_cong(keys: Set<u32>, f: spec_fn(u32) -> int, g: spec_fn(u32) -> int)
    requires
        keys.finite(),
        forall|k: u32| keys.contains(k) ==> cong(#[trigger] f(k), g(k)),
    ensures
        cong(sum_over(keys, f), sum_over(keys, g)),
    decreases keys.len(),
{
    if keys.len() > 0 {
        let k = keys.choose();
        lemma_sum_cong(keys.remove(k), f, g);
        assert(cong(f(k), g(k)));
        lemma_cong_ops(f(k), g(k), sum_over(keys.remove(k), f), sum_over(keys.remove(k), g));
    }
}

/// Sums of equal terms are equal.
pub proof fn lemma_sum_eq(keys: Set<u32>, f: spec_fn(u32) -> int, g: spec_fn(u32) -> int)
    requires
        keys.finite(),
        forall|k: u32| keys.contains(k) ==> #[trigger] f(k) == g(k),
    ensures
        sum_over(keys, f) == sum_over(keys, g),
    decreases keys.len(),
{
    if keys.len() > 0 {
        let k = keys.choose();
        lemma_sum_eq(keys.remove(k), f, g);
        assert(f(k) == g(k));
    }
}

/// The keys of a map, each once, in the order in which the map is walked.
pub fn keys_of<V>(map: &HashMap<u32, V>) -> (r: Vec<u32>)
    ensures
        r@.no_duplicates(),
        r@.to_set() == map@.dom(),
        map@.dom().finite(),
        r.len() == map@.dom().len(),
{
    broadcast use group_hash_axioms;

    let mut r: Vec<u32> = Vec::new();
    for k in it: map.keys()
        invariant
            r@ == it.seq().unref().take(it.index()),
            it.seq() == spec_keys_iter(map).remaining(),
    {
        r.push(*k);
    }
    assert(r@ =~= spec_keys_iter(map).remaining().unref());
    r
}

// ---------------------------------------------------------------------------------------------
// Keys in ascending order
// ---------------------------------------------------------------------------------------------

/// Each key is larger than the one before it.
pub open spec fn ascending(keys: Seq<u32>) -> bool {
    forall|i: int, j: int| 0 <= i < j < keys.len() ==> keys[i] < keys[j]
}

/// The members of a set in ascending order.
pub open spec fn in_order(keys: Set<u32>) -> Seq<u32> {
    choose|s: Seq<u32>| #[trigger] ascending(s) && s.to_set() == keys
}

/// There is only one way to list the members of a set in ascending order.
pub proof fn lemma_ascending_unique(a: Seq<u32>, b: Seq<u32>)
    requires
        ascending(a),
        ascending(b),
        a.to_set() == b.to_set(),
    ensures
        a == b,
    decreases a.len(),
{
    if a.len() == 0 {
        if b.len() > 0 {
            assert(b.to_set().contains(b[0]));
            assert(a.contains(b[0]));
        }
        assert(a =~= b);
    } else {
        assert(a.to_set().contains(a.last()));
        assert(b.contains(a.last()));
        assert(b.to_set().contains(b.last()));
        assert(a.contains(b.last()));
        assert(a.last() == b.last());
        let (c, d) = (a.drop_last(), b.drop_last());
        assert forall|k: u32| c.to_set().contains(k) == d.to_set().contains(k) by {
            lemma_drop_last_set(a, k);
            lemma_drop_last_set(b, k);
            assert(a.to_set().contains(k) == a.contains(k));
            assert(b.to_set().contains(k) == b.contains(k));
            assert(c.to_set().contains(k) == c.contains(k));
            assert(d.to_set().contains(k) == d.contains(k));
        }
        assert(c.to_set() =~= d.to_set());
        lemma_ascending_unique(c, d);
        assert(a =~= c.push(a.last()));
        assert(b =~= d.push(b.last()));
    }
}

/// Dropping the last of an ascending list takes that one key out of its set.
proof fn lemma_drop_last_set(a: Seq<u32>, k: u32)
    requires
        ascending(a),
        a.len() > 0,
    ensures
        a.drop_last().contains(k) <==> a.contains(k) && k != a.last(),
{
    let c = a.drop_last();
    if c.contains(k) {
        let i = c.index_of(k);
        assert(a[i] == k);
    }
    if a.contains(k) && k != a.last() {
        let i = a.index_of(k);
        assert(c[i] == k);
    }
}

/// An ascending list of the members of a set is the one that [`in_order`] gives.
pub proof fn lemma_in_order(s: Seq<u32>)
    requires
        ascending(s),
    ensures
        in_order(s.to_set()) == s,
{
    lemma_ascending_unique(in_order(s.to_set()), s);
}

/// The largest member of a set.
proof fn largest(keys: Set<u32>) -> (r: u32)
    requires
        keys.finite(),
        keys.len() > 0,
    ensures
        keys.contains(r),
        forall|k: u32| keys.contains(k) ==> k <= r,
    decreases keys.len(),
{
    let c = keys.choose();
    let rest = keys.remove(c);
    if rest.len() == 0 {
        assert forall|k: u32| keys.contains(k) implies k <= c by {
            if k != c {
                assert(rest.contains(k));
            }
        }
        c
    } else {
        let r = largest(rest);
        assert forall|k: u32| keys.contains(k) implies k <= r || k <= c by {
            if k != c {
                assert(rest.contains(k));
            }
        }
        if c < r {
            r
        } else {
            c
        }
    }
}

/// Every finite set can be listed in ascending order.
pub proof fn lemma_in_order_lists(keys: Set<u32>)
    requires
        keys.finite(),
    ensures
        ascending(in_order(keys)),
        in_order(keys).to_set() == keys,
    decreases keys.len(),
{
    if keys.len() == 0 {
        let s = Seq::<u32>::empty();
        assert(s.to_set() =~= keys);
        assert(ascending(s));
    } else {
        let last = largest(keys);
        let rest = keys.remove(last);
        lemma_in_order_lists(rest);
        let before = in_order(rest);
        let s = before.push(last);
        assert forall|i: int| 0 <= i < before.len() implies #[trigger] before[i] < last by {
            assert(before.to_set().contains(before[i]));
        }
        assert(ascending(s));
        assert forall|k: u32| s.to_set().contains(k) == keys.contains(k) by {
            assert(before.to_set().contains(k) == before.contains(k));
            assert(s.to_set().contains(k) == s.contains(k));
            if before.contains(k) {
                assert(s[before.index_of(k)] == k);
            }
            if s.contains(k) && k != last {
                let i = s.index_of(k);
                assert(before[i] == k);
            }
            assert(s[before.len() as int] == last);
        }
        assert(s.to_set() =~= keys);
    }
}

/// The keys of a map in ascending order.
pub fn sorted_keys_of<V>(map: &HashMap<u32, V>) -> (r: Vec<u32>)
    ensures
        r@ == in_order(map@.dom()),
        ascending(r@),
        r@.to_set() == map@.dom(),
{
    let keys = keys_of(map);
    let mut r: Vec<u32> = Vec::new();
    let mut i: usize = 0;
    while i < keys.len()
        invariant
            i <= keys.len(),
            keys@.no_duplicates(),
            ascending(r@),
            forall|k: u32| #[trigger] r@.contains(k) <==> keys@.take(i as int).contains(k),
        decreases keys.len() - i,
    {
        let key = keys[i];
        let mut at: usize = 0;
        while at < r.len() && r[at] < key
            invariant
                at <= r.len(),
                forall|j: int| 0 <= j < at ==> r[j] < key,
            decreases r.len() - at,
        {
            at += 1;
        }
        let ghost before = r@;
        proof {
            assert(!keys@.take(i as int).contains(key));
            if at < r.len() {
                assert(before.contains(before[at as int]));
            }
        }
        r.insert(at, key);
        proof {
            assert forall|k: u32| #[trigger]
                r@.contains(k) <==> keys@.take(i + 1).contains(k) by {
                let after = keys@.take(i + 1);
                assert(after[i as int] == key);
                assert(r@[at as int] == key);
                if before.contains(k) {
                    let j = before.index_of(k);
                    assert(r@[if j < at { j } else { j + 1 }] == k);
                    let m = keys@.take(i as int).index_of(k);
                    assert(after[m] == k);
                }
                if r@.contains(k) && k != key {
                    let j = r@.index_of(k);
                    assert(before[if j < at { j } else { j - 1 }] == k);
                }
                if after.contains(k) && k != key {
                    let m = after.index_of(k);
                    assert(keys@.take(i as int)[m] == k);
                }
            }
        }
        i += 1;
    }
    assert(keys@.take(keys.len() as int) =~= keys@);
    assert(r@.to_set() =~= keys@.to_set());
    proof {
        lemma_in_order(r@);
    }
    r
}

} // verus!
