//! Stable ordering of table positions by a pair of integer keys.
//!
//! Queries do not move rows while they sort. They compute the order in which
//! the positions of a table are to be read, and then read the rows in that
//! order.

use vstd::prelude::*;

verus! {

/// A sort key: compared by its first part, then by its second.
pub type Key = (i128, i128);

/// `a` does not come after `b`.
pub open spec fn key_le(a: Key, b: Key) -> bool {
    a.0 < b.0 || (a.0 == b.0 && a.1 <= b.1)
}

/// Position `x` is read before position `y`: its key is smaller, or the keys
/// are equal and `x` is the earlier position.
pub open spec fn precedes(keys: Seq<Key>, x: int, y: int) -> bool {
    let a = keys[x];
    let b = keys[y];
    a.0 < b.0 || (a.0 == b.0 && a.1 < b.1) || (a.0 == b.0 && a.1 == b.1 && x < y)
}

/// Where position `p` goes in `order`: behind the last entry whose key does
/// not come after the key of `p`.
pub open spec fn slot_for(keys: Seq<Key>, order: Seq<usize>, p: int) -> int
    decreases order.len(),
{
    if order.len() == 0 {
        0
    } else if key_le(keys[order.last() as int], keys[p]) {
        order.len() as int
    } else {
        slot_for(keys, order.drop_last(), p)
    }
}

/// The first `n` positions in ascending order of their keys; positions with
/// equal keys stay in ascending order.
pub open spec fn stable_order(keys: Seq<Key>, n: nat) -> Seq<usize>
    decreases n,
{
    if n == 0 {
        Seq::empty()
    } else {
        let before = stable_order(keys, (n - 1) as nat);
        before.insert(slot_for(keys, before, n - 1), (n - 1) as usize)
    }
}

/// The rows of `rows` read in the order `order`.
pub open spec fn arrange<T>(rows: Seq<T>, order: Seq<usize>) -> Seq<T> {
    Seq::new(order.len(), |k: int| rows[order[k] as int])
}

/// What `slot_for` picks: every entry before the slot has a key that does not
/// come after the key of `p`, as far as the last of them shows, and every
/// entry from the slot on has a key that comes after it.
pub proof fn lemma_slot_for(keys: Seq<Key>, order: Seq<usize>, p: int)
    ensures
        0 <= slot_for(keys, order, p) <= order.len(),
        slot_for(keys, order, p) > 0 ==> key_le(
            keys[order[slot_for(keys, order, p) - 1] as int],
            keys[p],
        ),
        forall|k: int|
            slot_for(keys, order, p) <= k < order.len() ==> !key_le(
                keys[(#[trigger] order[k]) as int],
                keys[p],
            ),
    decreases order.len(),
{
    if order.len() > 0 && !key_le(keys[order.last() as int], keys[p]) {
        lemma_slot_for(keys, order.drop_last(), p);
        let shorter = order.drop_last();
        let j = slot_for(keys, shorter, p);
        assert forall|k: int| j <= k < order.len() implies !key_le(
            keys[(#[trigger] order[k]) as int],
            keys[p],
        ) by {
            if k < shorter.len() {
                assert(shorter[k] == order[k]);
            }
        }
        if j > 0 {
            assert(shorter[j - 1] == order[j - 1]);
        }
    }
}

/// The stable order of the first `n` positions holds `n` positions below `n`,
/// each read before all that follow it.
pub proof fn lemma_stable_order_ranked(keys: Seq<Key>, n: nat)
    requires
        n <= keys.len(),
        n <= usize::MAX,
    ensures
        stable_order(keys, n).len() == n,
        forall|k: int| 0 <= k < n ==> (#[trigger] stable_order(keys, n)[k]) < n,
        forall|a: int, b: int|
            0 <= a < b < n ==> precedes(
                keys,
                (#[trigger] stable_order(keys, n)[a]) as int,
                (#[trigger] stable_order(keys, n)[b]) as int,
            ),
    decreases n,
{
    if n > 0 {
        let before = stable_order(keys, (n - 1) as nat);
        let p = n - 1;
        let j = slot_for(keys, before, p);
        let after = stable_order(keys, n);
        lemma_stable_order_ranked(keys, (n - 1) as nat);
        lemma_slot_for(keys, before, p);
        assert(after == before.insert(j, p as usize));
        assert forall|k: int| 0 <= k < n implies (#[trigger] after[k]) < n by {
            if k < j {
                assert(after[k] == before[k]);
            } else if k > j {
                assert(after[k] == before[k - 1]);
            }
        }
        assert forall|a: int, b: int| 0 <= a < b < n implies precedes(
            keys,
            (#[trigger] after[a]) as int,
            (#[trigger] after[b]) as int,
        ) by {
            let xa = if a < j { before[a] } else if a == j { p as usize } else { before[a - 1] };
            let xb = if b < j { before[b] } else if b == j { p as usize } else { before[b - 1] };
            assert(after[a] == xa);
            assert(after[b] == xb);
            if b < j {
            } else if b == j {
                // a < j: before[a] precedes or equals before[j - 1], which does not come after p
                if a < j - 1 {
                    assert(precedes(keys, before[a] as int, before[j - 1] as int));
                }
                assert(before[a] < p);
            } else if a == j {
                assert(!key_le(keys[before[b - 1] as int], keys[p]));
            } else if a < j {
                assert(precedes(keys, before[a] as int, before[b - 1] as int));
            } else {
                assert(precedes(keys, before[a - 1] as int, before[b - 1] as int));
            }
        }
    }
}

/// Putting a row in adds it to the rows that are there, wherever it goes.
proof fn lemma_insert_adds_one<T>(rows: Seq<T>, j: int, row: T)
    requires
        0 <= j <= rows.len(),
    ensures
        rows.insert(j, row).to_multiset() == rows.to_multiset().insert(row),
{
    broadcast use vstd::multiset::group_multiset_axioms;

    let head = rows.take(j);
    let tail = rows.skip(j);
    assert(rows.insert(j, row) =~= head.push(row) + tail);
    assert(rows =~= head + tail);
    vstd::seq_lib::lemma_multiset_commutative(head.push(row), tail);
    vstd::seq_lib::lemma_multiset_commutative(head, tail);
    head.to_multiset_ensures();
    assert(rows.insert(j, row).to_multiset() =~= rows.to_multiset().insert(row));
}

/// Reading rows in the stable order of their keys gives the same rows, each
/// as often as it stands among them.
pub proof fn lemma_arranged_is_permutation<T>(rows: Seq<T>, keys: Seq<Key>, n: nat)
    requires
        n <= rows.len(),
        n <= keys.len(),
        n <= usize::MAX,
    ensures
        arrange(rows, stable_order(keys, n)).to_multiset() == rows.take(n as int).to_multiset(),
        arrange(rows, stable_order(keys, n)).len() == n,
    decreases n,
{
    if n == 0 {
        assert(arrange(rows, stable_order(keys, n)) =~= rows.take(0));
    } else {
        let before = stable_order(keys, (n - 1) as nat);
        let j = slot_for(keys, before, n - 1);
        lemma_arranged_is_permutation(rows, keys, (n - 1) as nat);
        lemma_stable_order_ranked(keys, (n - 1) as nat);
        lemma_slot_for(keys, before, n - 1);
        let read = arrange(rows, before);
        let row = rows[n - 1];
        assert(arrange(rows, stable_order(keys, n)) =~= read.insert(j, row));
        lemma_insert_adds_one(read, j, row);
        assert(rows.take(n as int) =~= rows.take(n - 1).push(row));
        rows.take(n - 1).to_multiset_ensures();
    }
}

/// Positions whose keys already ascend are read as they stand.
pub proof fn lemma_stable_order_of_ascending(keys: Seq<Key>, n: nat)
    requires
        n <= keys.len(),
        n <= usize::MAX,
        forall|a: int, b: int| 0 <= a < b < n ==> key_le(#[trigger] keys[a], #[trigger] keys[b]),
    ensures
        stable_order(keys, n) == Seq::new(n, |k: int| k as usize),
    decreases n,
{
    if n > 0 {
        lemma_stable_order_of_ascending(keys, (n - 1) as nat);
        let before = stable_order(keys, (n - 1) as nat);
        if n > 1 {
            assert(before.last() == (n - 2) as usize);
            assert(key_le(keys[n - 2], keys[n - 1]));
        }
        assert(stable_order(keys, n) =~= Seq::new(n, |k: int| k as usize));
    } else {
        assert(stable_order(keys, n) =~= Seq::new(n, |k: int| k as usize));
    }
}

/// The key by which rows are read in ascending order of `first`, then of
/// `second`.
pub open spec fn rising(first: i64, second: i64) -> Key {
    (first as i128, second as i128)
}

/// The key by which rows are read in descending order of `first`, then of
/// `second`.
pub open spec fn falling(first: i64, second: i64) -> Key {
    ((-(first as int)) as i128, (-(second as int)) as i128)
}

/// Computes the key for ascending order.
pub fn rising_key(first: i64, second: i64) -> (r: Key)
    ensures
        r == rising(first, second),
{
    (first as i128, second as i128)
}

/// Computes the key for descending order.
pub fn falling_key(first: i64, second: i64) -> (r: Key)
    ensures
        r == falling(first, second),
{
    (-(first as i128), -(second as i128))
}

fn key_not_after(a: Key, b: Key) -> (r: bool)
    ensures
        r == key_le(a, b),
{
    a.0 < b.0 || (a.0 == b.0 && a.1 <= b.1)
}

/// Computes the stable order of all positions of `keys`.
pub fn order_by_keys(keys: &Vec<Key>) -> (order: Vec<usize>)
    ensures
        order@ == stable_order(keys@, keys@.len()),
        order@.len() == keys@.len(),
        forall|k: int| 0 <= k < order@.len() ==> (#[trigger] order@[k]) < keys@.len(),
{
    let mut order: Vec<usize> = Vec::new();
    let mut i: usize = 0;
    while i < keys.len()
        invariant
            i <= keys.len(),
            order@ == stable_order(keys@, i as nat),
            order@.len() == i,
            forall|k: int| 0 <= k < order@.len() ==> (#[trigger] order@[k]) < i,
        decreases keys.len() - i,
    {
        let mut j: usize = order.len();
        assert(order@.take(j as int) =~= order@);
        while j > 0 && !key_not_after(keys[order[j - 1]], keys[i])
            invariant
                j <= order.len(),
                i < keys.len(),
                forall|k: int| 0 <= k < order@.len() ==> (#[trigger] order@[k]) < i,
                slot_for(keys@, order@, i as int) == slot_for(keys@, order@.take(j as int), i as int),
            decreases j,
        {
            proof {
                let head = order@.take(j as int);
                assert(head.last() == order@[j - 1]);
                assert(head.drop_last() =~= order@.take(j - 1));
            }
            j = j - 1;
        }
        proof {
            let head = order@.take(j as int);
            if j > 0 {
                assert(head.last() == order@[j - 1]);
            }
            assert(order@.take(order@.len() as int) =~= order@);
            lemma_stable_order_ranked(keys@, (i + 1) as nat);
        }
        order.insert(j, i);
        i = i + 1;
    }
    order
}

} // verus!
