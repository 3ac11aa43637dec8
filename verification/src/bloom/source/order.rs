//! The order of shard keys, and a merge sort by it.

use crate::bloom::source::key::{ShardKey, ShardKind};
use vstd::prelude::*;
use vstd::relations::{sorted_by, total_ordering};

verus! {

/// The rank of a kind.
pub open spec fn kind_rank(kind: ShardKind) -> int {
    match kind {
        ShardKind::Ordinary => 0,
        ShardKind::Bootstrap => 1,
    }
}

/// Keys are ordered by range, kind and anchor, and keys that agree in these by generation.
pub open spec fn key_le(a: ShardKey, b: ShardKey) -> bool {
    if a.first_id() != b.first_id() {
        a.first_id() < b.first_id()
    } else if a.last_id() != b.last_id() {
        a.last_id() < b.last_id()
    } else if a.kind() != b.kind() {
        kind_rank(a.kind()) < kind_rank(b.kind())
    } else if a.anchor_ts() != b.anchor_ts() {
        a.anchor_ts() < b.anchor_ts()
    } else {
        a.generation().id <= b.generation().id
    }
}

/// The order as a relation.
pub open spec fn key_order() -> spec_fn(ShardKey, ShardKey) -> bool {
    |a: ShardKey, b: ShardKey| key_le(a, b)
}

/// The order is total.
pub proof fn lemma_key_order_is_total()
    ensures
        total_ordering(key_order()),
{
    assert forall|a: ShardKey, b: ShardKey| key_le(a, b) && key_le(b, a) implies a == b by {
        crate::bloom::source::key::lemma_key_is_its_fields(a, b);
    }
}

/// The keys in order.
pub open spec fn in_order(keys: Seq<ShardKey>) -> Seq<ShardKey> {
    keys.sort_by(key_order())
}

/// Keys in order are a rearrangement.
pub proof fn lemma_in_order(keys: Seq<ShardKey>)
    ensures
        in_order(keys).to_multiset() == keys.to_multiset(),
        in_order(keys).len() == keys.len(),
        sorted_by(in_order(keys), key_order()),
        forall|key: ShardKey| in_order(keys).contains(key) <==> #[trigger] keys.contains(key),
{
    lemma_key_order_is_total();
    keys.lemma_sort_by_ensures(key_order());
    keys.to_multiset_ensures();
    in_order(keys).to_multiset_ensures();
    assert forall|key: ShardKey| in_order(keys).contains(key) <==> #[trigger] keys.contains(
        key,
    ) by {
        assert(keys.to_multiset().count(key) == in_order(keys).to_multiset().count(key));
    }
}

/// Two lists of the same keys come in the same order.
pub proof fn order_does_not_depend_on_arrangement(a: Seq<ShardKey>, b: Seq<ShardKey>)
    requires
        a.to_multiset() == b.to_multiset(),
    ensures
        in_order(a) == in_order(b),
{
    lemma_key_order_is_total();
    lemma_in_order(a);
    lemma_in_order(b);
    vstd::seq_lib::lemma_sorted_unique(in_order(a), in_order(b), key_order());
}

/// Shards come in ascending order of their first ID; of those with the same, in that of their last
/// ID; of those with the same range, ordinary shards come before bootstrap shards; and of those
/// with the same range and kind, the earlier anchor comes first. Every shard comes as often as it
/// was given.
pub proof fn shards_ascend_by_range_kind_and_anchor(keys: Seq<ShardKey>, i: int, j: int)
    requires
        0 <= i < j < keys.len(),
    ensures
        in_order(keys).len() == keys.len(),
        in_order(keys).to_multiset() == keys.to_multiset(),
        ({
            let a = in_order(keys)[i];
            let b = in_order(keys)[j];
            &&& a.first_id() <= b.first_id()
            &&& a.first_id() == b.first_id() ==> a.last_id() <= b.last_id()
            &&& a.first_id() == b.first_id() && a.last_id() == b.last_id() ==> (a.kind()
                == ShardKind::Bootstrap ==> b.kind() == ShardKind::Bootstrap)
            &&& a.first_id() == b.first_id() && a.last_id() == b.last_id() && a.kind() == b.kind()
                ==> a.anchor_ts() <= b.anchor_ts()
        }),
{
    lemma_in_order(keys);
    assert(key_order()(in_order(keys)[i], in_order(keys)[j]));
}

fn check_le(a: &ShardKey, b: &ShardKey) -> (r: bool)
    ensures
        r == key_le(*a, *b),
{
    if a.first_id() != b.first_id() {
        return a.first_id() < b.first_id();
    }
    if a.last_id() != b.last_id() {
        return a.last_id() < b.last_id();
    }
    match (a.kind(), b.kind()) {
        (ShardKind::Ordinary, ShardKind::Bootstrap) => {
            return true;
        },
        (ShardKind::Bootstrap, ShardKind::Ordinary) => {
            return false;
        },
        _ => {},
    }
    if a.anchor_ts() != b.anchor_ts() {
        return a.anchor_ts() < b.anchor_ts();
    }
    a.generation().id <= b.generation().id
}

/// Merges two sorted lists.
fn merge(a: &Vec<ShardKey>, b: &Vec<ShardKey>) -> (merged: Vec<ShardKey>)
    requires
        sorted_by(a@, key_order()),
        sorted_by(b@, key_order()),
        a@.len() + b@.len() <= usize::MAX,
    ensures
        sorted_by(merged@, key_order()),
        merged@.to_multiset() == a@.to_multiset().add(b@.to_multiset()),
{
    let mut merged: Vec<ShardKey> = Vec::new();
    let mut i: usize = 0;
    let mut j: usize = 0;
    proof {
        lemma_key_order_is_total();
        assert(a@.take(0) =~= Seq::<ShardKey>::empty());
        assert(b@.take(0) =~= Seq::<ShardKey>::empty());
        assert(merged@ =~= Seq::<ShardKey>::empty());
        merged@.to_multiset_ensures();
        assert(merged@.to_multiset() =~= merged@.to_multiset().add(merged@.to_multiset()));
    }
    while i < a.len() || j < b.len()
        invariant
            i <= a@.len(),
            j <= b@.len(),
            a@.len() + b@.len() <= usize::MAX,
            total_ordering(key_order()),
            sorted_by(a@, key_order()),
            sorted_by(b@, key_order()),
            sorted_by(merged@, key_order()),
            merged@.to_multiset() == a@.take(i as int).to_multiset().add(
                b@.take(j as int).to_multiset(),
            ),
            forall|k: int, l: int|
                0 <= k < merged@.len() && i <= l < a@.len() ==> key_order()(
                    #[trigger] merged@[k],
                    #[trigger] a@[l],
                ),
            forall|k: int, l: int|
                0 <= k < merged@.len() && j <= l < b@.len() ==> key_order()(
                    #[trigger] merged@[k],
                    #[trigger] b@[l],
                ),
        decreases a@.len() - i + b@.len() - j,
    {
        let from_a: bool = j == b.len() || (i < a.len() && check_le(&a[i], &b[j]));
        let ghost before = merged@;
        if from_a {
            merged.push(a[i]);
            proof {
                assert(a@.take(i + 1) =~= a@.take(i as int).push(a@[i as int]));
                before.to_multiset_ensures();
                a@.take(i as int).to_multiset_ensures();
                assert(merged@.to_multiset() =~= a@.take(i + 1).to_multiset().add(
                    b@.take(j as int).to_multiset(),
                ));
                assert forall|l: int| j <= l < b@.len() implies key_order()(
                    a@[i as int],
                    #[trigger] b@[l],
                ) by {
                    assert(key_order()(a@[i as int], b@[j as int]));
                    if j < l {
                        assert(key_order()(b@[j as int], b@[l]));
                    }
                }
                assert forall|l: int| i < l < a@.len() implies key_order()(
                    a@[i as int],
                    #[trigger] a@[l],
                ) by {}
            }
            i = i + 1;
        } else {
            merged.push(b[j]);
            proof {
                assert(b@.take(j + 1) =~= b@.take(j as int).push(b@[j as int]));
                before.to_multiset_ensures();
                b@.take(j as int).to_multiset_ensures();
                assert(merged@.to_multiset() =~= a@.take(i as int).to_multiset().add(
                    b@.take(j + 1).to_multiset(),
                ));
                assert forall|l: int| i <= l < a@.len() implies key_order()(
                    b@[j as int],
                    #[trigger] a@[l],
                ) by {
                    assert(key_order()(b@[j as int], a@[i as int]));
                    if i < l {
                        assert(key_order()(a@[i as int], a@[l]));
                    }
                }
                assert forall|l: int| j < l < b@.len() implies key_order()(
                    b@[j as int],
                    #[trigger] b@[l],
                ) by {}
            }
            j = j + 1;
        }
    }
    assert(a@.take(i as int) =~= a@);
    assert(b@.take(j as int) =~= b@);
    merged
}

/// Sorts keys.
pub fn sort_keys(keys: &[ShardKey]) -> (sorted: Vec<ShardKey>)
    ensures
        sorted@ == in_order(keys@),
{
    let sorted = merge_sort(keys);
    proof {
        lemma_key_order_is_total();
        lemma_in_order(keys@);
        vstd::seq_lib::lemma_sorted_unique(sorted@, in_order(keys@), key_order());
    }
    sorted
}

fn merge_sort(keys: &[ShardKey]) -> (sorted: Vec<ShardKey>)
    ensures
        sorted_by(sorted@, key_order()),
        sorted@.to_multiset() == keys@.to_multiset(),
        sorted@.len() == keys@.len(),
    decreases keys@.len(),
{
    let mut sorted: Vec<ShardKey> = Vec::new();
    if keys.len() == 0 {
        assert(sorted@ =~= keys@);
        return sorted;
    }
    if keys.len() == 1 {
        sorted.push(keys[0]);
        assert(sorted@ =~= keys@);
        return sorted;
    }
    let middle: usize = keys.len() / 2;
    let low = merge_sort(&keys[0..middle]);
    let high = merge_sort(&keys[middle..keys.len()]);
    let sorted = merge(&low, &high);
    proof {
        let left = keys@.subrange(0, middle as int);
        let right = keys@.subrange(middle as int, keys@.len() as int);
        assert(keys@ =~= left + right);
        vstd::seq_lib::lemma_multiset_commutative(left, right);
        sorted@.to_multiset_ensures();
        keys@.to_multiset_ensures();
    }
    sorted
}

} // verus!
