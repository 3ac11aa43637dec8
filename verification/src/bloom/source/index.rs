//! The shards of one generation.

use crate::bloom::error::BloomError;
use crate::bloom::source::key::{key_text, ShardKey, ShardKind};
use crate::bloom::source::order::{
    in_order, key_order, lemma_in_order, order_does_not_depend_on_arrangement, sort_keys,
};
use crate::generation::{uuid_text, Generation};
use vstd::prelude::*;
use vstd::relations::sorted_by;

verus! {

/// An indexed collection of the shards in one generation.
///
/// Construction rejects overlapping ordinary row ranges. Bootstrap shards are overlays and may
/// overlap any shard; duplicate Bloom insertions are harmless. Gaps between ordinary shards are
/// legal because source IDs need not be contiguous.
#[derive(Clone, Debug)]
pub struct ShardIndex {
    generation: Generation,
    /// Deterministically sorted by range, kind, and anchor. Ordinary ranges are pairwise disjoint.
    shards: Vec<ShardKey>,
}

/// Whether an ordinary shard shares rows with an ordinary shard before it in the order.
pub open spec fn overlaps_earlier(sorted: Seq<ShardKey>, i: int) -> bool {
    &&& sorted[i].kind() == ShardKind::Ordinary
    &&& exists|j: int|
        0 <= j < i && (#[trigger] sorted[j]).kind() == ShardKind::Ordinary && sorted[i].first_id()
            <= sorted[j].last_id()
}

/// Whether no row ID lies in the ranges of both keys.
pub open spec fn disjoint(a: ShardKey, b: ShardKey) -> bool {
    forall|id: u64|
        #![trigger in_range(a, id)]
        #![trigger in_range(b, id)]
        !(in_range(a, id) && in_range(b, id))
}

/// Whether a row ID lies in the range of a key.
pub open spec fn in_range(key: ShardKey, id: u64) -> bool {
    key.first_id() <= id <= key.last_id()
}

/// Whether the ordinary shards of a list have pairwise disjoint ranges.
pub open spec fn ordinary_ranges_are_disjoint(keys: Seq<ShardKey>) -> bool {
    forall|i: int, j: int|
        0 <= i < j < keys.len() && (#[trigger] keys[i]).kind() == ShardKind::Ordinary && (
        #[trigger] keys[j]).kind() == ShardKind::Ordinary ==> disjoint(keys[i], keys[j])
}

/// All keys are valid.
pub open spec fn all_wf(keys: Seq<ShardKey>) -> bool {
    forall|i: int| 0 <= i < keys.len() ==> (#[trigger] keys[i]).wf()
}

/// A list holds no ordinary shard.
pub open spec fn none_ordinary(keys: Seq<ShardKey>) -> bool {
    forall|i: int| 0 <= i < keys.len() ==> (#[trigger] keys[i]).kind() != ShardKind::Ordinary
}

/// An ordinary shard of a list that ends at the row ID, which no other ordinary shard goes beyond.
pub open spec fn holds_watermark(keys: Seq<ShardKey>, i: int, row: u64) -> bool {
    &&& 0 <= i < keys.len()
    &&& keys[i].kind() == ShardKind::Ordinary
    &&& keys[i].last_id() == row
    &&& forall|j: int|
        0 <= j < keys.len() && (#[trigger] keys[j]).kind() == ShardKind::Ordinary
            ==> keys[j].last_id() <= row
}

/// Two ranges with an ID in common are not disjoint.
proof fn lemma_disjoint(a: ShardKey, b: ShardKey)
    requires
        a.wf(),
        b.wf(),
    ensures
        disjoint(a, b) <==> a.last_id() < b.first_id() || b.last_id() < a.first_id(),
        disjoint(a, b) <==> disjoint(b, a),
{
    if !(a.last_id() < b.first_id() || b.last_id() < a.first_id()) {
        let id = if a.first_id() < b.first_id() {
            b.first_id()
        } else {
            a.first_id()
        };
        assert(in_range(a, id) && in_range(b, id));
    }
}

/// In order, disjointness of the ordinary shards means that none overlaps an earlier one.
proof fn lemma_disjoint_in_order(sorted: Seq<ShardKey>)
    requires
        all_wf(sorted),
        sorted_by(sorted, key_order()),
    ensures
        ordinary_ranges_are_disjoint(sorted) <==> forall|i: int|
            0 <= i < sorted.len() ==> !#[trigger] overlaps_earlier(sorted, i),
{
    if ordinary_ranges_are_disjoint(sorted) {
        assert forall|i: int| 0 <= i < sorted.len() implies !#[trigger] overlaps_earlier(
            sorted,
            i,
        ) by {
            if overlaps_earlier(sorted, i) {
                let j = choose|j: int|
                    0 <= j < i && (#[trigger] sorted[j]).kind() == ShardKind::Ordinary
                        && sorted[i].first_id() <= sorted[j].last_id();
                lemma_disjoint(sorted[j], sorted[i]);
                assert(key_order()(sorted[j], sorted[i]));
            }
        }
    }
    if forall|i: int| 0 <= i < sorted.len() ==> !#[trigger] overlaps_earlier(sorted, i) {
        assert forall|i: int, j: int|
            0 <= i < j < sorted.len() && (#[trigger] sorted[i]).kind() == ShardKind::Ordinary && (
            #[trigger] sorted[j]).kind() == ShardKind::Ordinary implies disjoint(
            sorted[i],
            sorted[j],
        ) by {
            lemma_disjoint(sorted[i], sorted[j]);
            assert(!overlaps_earlier(sorted, j));
        }
    }
}

/// A key that occurs twice stands at two places.
proof fn lemma_two_places(keys: Seq<ShardKey>, key: ShardKey) -> (places: (int, int))
    requires
        keys.to_multiset().count(key) >= 2,
    ensures
        0 <= places.0 < places.1 < keys.len(),
        keys[places.0] == key,
        keys[places.1] == key,
    decreases keys.len(),
{
    keys.to_multiset_ensures();
    assert(keys.contains(key));
    let shorter = keys.drop_last();
    assert(shorter.push(keys.last()) =~= keys);
    shorter.to_multiset_ensures();
    if keys.last() == key {
        assert(shorter.to_multiset().count(key) >= 1);
        assert(shorter.contains(key));
        let i = choose|i: int| 0 <= i < shorter.len() && shorter[i] == key;
        (i, keys.len() - 1)
    } else {
        lemma_two_places(shorter, key)
    }
}

/// A key at two places occurs twice.
proof fn lemma_occurs_twice(keys: Seq<ShardKey>, i: int, j: int)
    requires
        0 <= i < j < keys.len(),
        keys[i] == keys[j],
    ensures
        keys.to_multiset().count(keys[i]) >= 2,
    decreases keys.len(),
{
    let shorter = keys.drop_last();
    assert(shorter.push(keys.last()) =~= keys);
    shorter.to_multiset_ensures();
    if j == keys.len() - 1 {
        assert(shorter[i] == keys[i]);
        assert(shorter.contains(keys[i]));
    } else {
        lemma_occurs_twice(shorter, i, j);
    }
}

/// Disjointness does not depend on the arrangement of the list.
proof fn lemma_disjointness_is_about_the_keys(a: Seq<ShardKey>, b: Seq<ShardKey>)
    requires
        a.to_multiset() == b.to_multiset(),
        all_wf(a),
        ordinary_ranges_are_disjoint(a),
    ensures
        all_wf(b),
        ordinary_ranges_are_disjoint(b),
{
    a.to_multiset_ensures();
    b.to_multiset_ensures();
    assert forall|i: int| 0 <= i < b.len() implies a.contains(#[trigger] b[i]) by {
        assert(b.contains(b[i]));
        assert(b.to_multiset().count(b[i]) > 0);
    }
    assert forall|i: int, j: int|
        0 <= i < j < b.len() && (#[trigger] b[i]).kind() == ShardKind::Ordinary && (
        #[trigger] b[j]).kind() == ShardKind::Ordinary implies disjoint(b[i], b[j]) by {
        if b[i] == b[j] {
            lemma_occurs_twice(b, i, j);
            let places = lemma_two_places(a, b[i]);
            assert(disjoint(a[places.0], a[places.1]));
        } else {
            let k = choose|k: int| 0 <= k < a.len() && a[k] == b[i];
            let l = choose|l: int| 0 <= l < a.len() && a[l] == b[j];
            lemma_disjoint(a[k], a[l]);
            if k < l {
                assert(disjoint(a[k], a[l]));
            } else {
                assert(disjoint(a[l], a[k]));
            }
        }
    }
}

/// Whether an index accepts shards.
pub open spec fn index_accepted(generation: Generation, keys: Seq<ShardKey>) -> bool {
    &&& forall|i: int| 0 <= i < keys.len() ==> (#[trigger] keys[i]).generation() == generation
    &&& forall|i: int|
        0 <= i < keys.len() ==> !#[trigger] overlaps_earlier(in_order(keys), i)
}

/// Whether `error` is what is wrong with shards that an index does not accept: the first shard of
/// another generation, or else the first in order that overlaps an earlier one.
pub open spec fn index_refusal(
    generation: Generation,
    keys: Seq<ShardKey>,
    error: BloomError,
) -> bool {
    if exists|i: int| 0 <= i < keys.len() && (#[trigger] keys[i]).generation() != generation {
        exists|i: int|
            {
                &&& 0 <= i < keys.len()
                &&& (#[trigger] keys[i]).generation() != generation
                &&& forall|j: int|
                    0 <= j < i ==> (#[trigger] keys[j]).generation() == generation
                &&& error matches BloomError::WrongShardGeneration { key, expected }
                &&& key@ == key_text(keys[i])
                &&& expected@ == uuid_text(generation.id)
            }
    } else {
        exists|i: int|
            {
                &&& 0 <= i < keys.len()
                &&& #[trigger] overlaps_earlier(in_order(keys), i)
                &&& forall|j: int| 0 <= j < i ==> !#[trigger] overlaps_earlier(in_order(keys), j)
                &&& error matches BloomError::ShardOverlap { key }
                &&& key@ == key_text(in_order(keys)[i])
            }
    }
}

/// An index accepts the shards of its generation if and only if no two ordinary shards share a
/// row, in whatever arrangement the shards come.
pub proof fn an_index_accepts_disjoint_ordinary_ranges(
    generation: Generation,
    keys: Seq<ShardKey>,
)
    requires
        all_wf(keys),
        forall|i: int| 0 <= i < keys.len() ==> (#[trigger] keys[i]).generation() == generation,
    ensures
        index_accepted(generation, keys) <==> ordinary_ranges_are_disjoint(keys),
{
    let sorted = in_order(keys);
    lemma_in_order(keys);
    assert(all_wf(sorted)) by {
        assert forall|i: int| 0 <= i < sorted.len() implies (#[trigger] sorted[i]).wf() by {
            assert(sorted.contains(sorted[i]));
            assert(keys.contains(sorted[i]));
        }
    }
    lemma_disjoint_in_order(sorted);
    if ordinary_ranges_are_disjoint(keys) {
        lemma_disjointness_is_about_the_keys(keys, sorted);
    }
    if ordinary_ranges_are_disjoint(sorted) {
        lemma_disjointness_is_about_the_keys(sorted, keys);
    }
}

/// An index takes shards exactly where all are of its generation and no row ID lies in the ranges
/// of two ordinary shards at different places of the list.
pub proof fn an_index_shares_no_row(generation: Generation, keys: Seq<ShardKey>)
    requires
        all_wf(keys),
    ensures
        index_accepted(generation, keys) <==> {
            &&& forall|i: int| 0 <= i < keys.len() ==> (#[trigger] keys[i]).generation() == generation
            &&& forall|i: int, j: int|
                0 <= i < j < keys.len() && (#[trigger] keys[i]).kind() == ShardKind::Ordinary && (
                #[trigger] keys[j]).kind() == ShardKind::Ordinary ==> keys[i].last_id()
                    < keys[j].first_id() || keys[j].last_id() < keys[i].first_id()
        },
        all_wf(keys) <==> forall|i: int|
            0 <= i < keys.len() ==> 1 <= (#[trigger] keys[i]).first_id() <= keys[i].last_id(),
{
    if forall|i: int| 0 <= i < keys.len() ==> (#[trigger] keys[i]).generation() == generation {
        an_index_accepts_disjoint_ordinary_ranges(generation, keys);
        assert forall|i: int, j: int| 0 <= i < j < keys.len() implies (disjoint(
            #[trigger] keys[i],
            #[trigger] keys[j],
        ) <==> keys[i].last_id() < keys[j].first_id() || keys[j].last_id() < keys[i].first_id()) by {
            lemma_disjoint(keys[i], keys[j]);
        }
    }
}

/// A refused index names the first shard of another generation, where there is one.
pub proof fn a_refused_index_names_the_first_foreign_shard(
    generation: Generation,
    keys: Seq<ShardKey>,
    error: BloomError,
    foreign: int,
)
    requires
        index_refusal(generation, keys, error),
        0 <= foreign < keys.len(),
        keys[foreign].generation() != generation,
        forall|j: int| 0 <= j < foreign ==> (#[trigger] keys[j]).generation() == generation,
    ensures
        error matches BloomError::WrongShardGeneration { key, expected } && key@ == key_text(
            keys[foreign],
        ) && expected@ == uuid_text(generation.id),
{
}

/// The ordinary shard at `i` shares a row with the ordinary shard at `j` before it, and the ordinary
/// shards before `i` share none.
pub open spec fn shares_the_first_row(sorted: Seq<ShardKey>, i: int, j: int) -> bool {
    &&& 0 <= j < i < sorted.len()
    &&& sorted[i].kind() == ShardKind::Ordinary
    &&& sorted[j].kind() == ShardKind::Ordinary
    &&& sorted[j].first_id() <= sorted[i].first_id() <= sorted[j].last_id()
    &&& forall|a: int, b: int|
        0 <= a < b < i && (#[trigger] sorted[a]).kind() == ShardKind::Ordinary && (
        #[trigger] sorted[b]).kind() == ShardKind::Ordinary ==> sorted[a].last_id()
            < sorted[b].first_id()
}

/// A refused index of one generation names, of the shards in order, the first that shares a row
/// with one before it.
pub proof fn a_refused_index_names_the_first_overlap(
    generation: Generation,
    keys: Seq<ShardKey>,
    error: BloomError,
) -> (places: (int, int))
    requires
        index_refusal(generation, keys, error),
        forall|j: int| 0 <= j < keys.len() ==> (#[trigger] keys[j]).generation() == generation,
    ensures
        shares_the_first_row(in_order(keys), places.0, places.1),
        error matches BloomError::ShardOverlap { key } && key@ == key_text(
            in_order(keys)[places.0],
        ),
{
    let sorted = in_order(keys);
    lemma_in_order(keys);
    let i = choose|i: int|
        {
            &&& 0 <= i < keys.len()
            &&& #[trigger] overlaps_earlier(sorted, i)
            &&& forall|j: int| 0 <= j < i ==> !#[trigger] overlaps_earlier(sorted, j)
            &&& error matches BloomError::ShardOverlap { key }
            &&& key@ == key_text(sorted[i])
        };
    let j = choose|j: int|
        0 <= j < i && (#[trigger] sorted[j]).kind() == ShardKind::Ordinary && sorted[i].first_id()
            <= sorted[j].last_id();
    assert(key_order()(sorted[j], sorted[i]));
    assert forall|a: int, b: int|
        0 <= a < b < i && (#[trigger] sorted[a]).kind() == ShardKind::Ordinary && (
        #[trigger] sorted[b]).kind() == ShardKind::Ordinary implies sorted[a].last_id()
        < sorted[b].first_id() by {
        assert(!overlaps_earlier(sorted, b));
    }
    (i, j)
}

/// The watermark is the last ID of an ordinary shard, and no ordinary shard goes beyond it. An
/// index without ordinary shards has none.
pub proof fn watermarks_are_the_largest_ordinary_rows(keys: Seq<ShardKey>, i: int, row: u64)
    ensures
        holds_watermark(keys, i, row) <==> {
            &&& 0 <= i < keys.len()
            &&& keys[i].kind() == ShardKind::Ordinary
            &&& keys[i].last_id() == row
            &&& forall|j: int|
                0 <= j < keys.len() && (#[trigger] keys[j]).kind() == ShardKind::Ordinary
                    ==> keys[j].last_id() <= row
        },
        none_ordinary(keys) <==> !exists|j: int|
            0 <= j < keys.len() && (#[trigger] keys[j]).kind() == ShardKind::Ordinary,
{
}

/// The arrangement in which shards come does not matter for an index of their generation: neither
/// for whether it accepts them, nor for their order in it, nor for the shard that it refuses.
pub proof fn arrangement_of_shards_does_not_matter(
    generation: Generation,
    a: Seq<ShardKey>,
    b: Seq<ShardKey>,
    error: BloomError,
)
    requires
        a.to_multiset() == b.to_multiset(),
        forall|i: int| 0 <= i < a.len() ==> (#[trigger] a[i]).generation() == generation,
    ensures
        in_order(a) == in_order(b),
        index_accepted(generation, a) <==> index_accepted(generation, b),
        index_refusal(generation, a, error) <==> index_refusal(generation, b, error),
{
    order_does_not_depend_on_arrangement(a, b);
    a.to_multiset_ensures();
    b.to_multiset_ensures();
    assert forall|i: int| 0 <= i < b.len() implies (#[trigger] b[i]).generation() == generation by {
        assert(b.contains(b[i]));
        assert(b.to_multiset().count(b[i]) > 0);
        assert(a.contains(b[i]));
    }
}

impl ShardIndex {
    pub closed spec fn spec_generation(&self) -> Generation {
        self.generation
    }

    /// The shards as a sequence.
    pub closed spec fn view(&self) -> Seq<ShardKey> {
        self.shards@
    }

    /// The invariants of the type.
    pub open spec fn wf(&self) -> bool {
        &&& all_wf(self@)
        &&& sorted_by(self@, key_order())
        &&& ordinary_ranges_are_disjoint(self@)
        &&& forall|i: int|
            0 <= i < self@.len() ==> (#[trigger] self@[i]).generation() == self.spec_generation()
    }

    /// Sorts and checks the shards of a generation.
    pub fn new(generation: Generation, shards: Vec<ShardKey>) -> (r: Result<Self, BloomError>)
        requires
            all_wf(shards@),
        ensures
            match r {
                Ok(index) => {
                    &&& index_accepted(generation, shards@)
                    &&& index.wf()
                    &&& index.spec_generation() == generation
                    &&& index@ == in_order(shards@)
                },
                Err(error) => {
                    &&& !index_accepted(generation, shards@)
                    &&& index_refusal(generation, shards@, error)
                },
            },
    {
        let mut i: usize = 0;
        while i < shards.len()
            invariant
                i <= shards@.len(),
                forall|j: int| 0 <= j < i ==> (#[trigger] shards@[j]).generation() == generation,
            decreases shards@.len() - i,
        {
            if shards[i].generation() != generation {
                assert(shards@[i as int].generation() != generation);
                return Err(
                    BloomError::WrongShardGeneration {
                        key: shards[i].to_key(),
                        expected: generation.to_string(),
                    },
                );
            }
            i = i + 1;
        }
        let sorted = sort_keys(shards.as_slice());
        proof {
            lemma_in_order(shards@);
            assert forall|j: int| 0 <= j < sorted@.len() implies (#[trigger] sorted@[j]).wf()
                && sorted@[j].generation() == generation by {
                assert(sorted@.contains(sorted@[j]));
                assert(shards@.contains(sorted@[j]));
            }
        }
        let mut last: Option<u64> = None;
        let mut i: usize = 0;
        while i < sorted.len()
            invariant
                i <= sorted@.len(),
                sorted@ == in_order(shards@),
                sorted@.len() == shards@.len(),
                forall|j: int| 0 <= j < i ==> !#[trigger] overlaps_earlier(sorted@, j),
                match last {
                    None => forall|j: int|
                        0 <= j < i ==> (#[trigger] sorted@[j]).kind() != ShardKind::Ordinary,
                    Some(row) => {
                        &&& exists|j: int|
                            0 <= j < i && (#[trigger] sorted@[j]).kind() == ShardKind::Ordinary
                                && sorted@[j].last_id() == row
                        &&& forall|j: int|
                            0 <= j < i && (#[trigger] sorted@[j]).kind() == ShardKind::Ordinary
                                ==> sorted@[j].last_id() <= row
                    },
                },
                forall|j: int| 0 <= j < sorted@.len() ==> (#[trigger] sorted@[j]).wf(),
                forall|j: int|
                    0 <= j < shards@.len() ==> (#[trigger] shards@[j]).generation() == generation,
            decreases sorted@.len() - i,
        {
            if sorted[i].kind() == ShardKind::Ordinary {
                let overlapping = match last {
                    Some(row) => sorted[i].first_id() <= row,
                    None => false,
                };
                if overlapping {
                    assert(overlaps_earlier(sorted@, i as int));
                    return Err(BloomError::ShardOverlap { key: sorted[i].to_key() });
                }
                last = Some(sorted[i].last_id());
                assert(sorted@[i as int].last_id() == sorted@[i as int].last_id());
            }
            i = i + 1;
        }
        proof {
            lemma_disjoint_in_order(sorted@);
        }
        Ok(ShardIndex { generation, shards: sorted })
    }

    /// The generation of the shards.
    pub fn generation(&self) -> (r: Generation)
        ensures
            r == self.spec_generation(),
    {
        self.generation
    }

    /// The ordinary shard with the largest row ID.
    fn last_ordinary(&self) -> (r: Option<ShardKey>)
        requires
            self.wf(),
        ensures
            match r {
                None => none_ordinary(self@),
                Some(key) => exists|i: int|
                    #[trigger] self@[i] == key && holds_watermark(self@, i, key.last_id()),
            },
    {
        let mut best: Option<ShardKey> = None;
        let mut i: usize = 0;
        while i < self.shards.len()
            invariant
                i <= self@.len(),
                self.shards@ == self@,
                match best {
                    None => none_ordinary(self@.take(i as int)),
                    Some(key) => exists|j: int|
                        #[trigger] self@.take(i as int)[j] == key && holds_watermark(
                            self@.take(i as int),
                            j,
                            key.last_id(),
                        ),
                },
            decreases self@.len() - i,
        {
            let key = self.shards[i];
            let ghost before = self@.take(i as int);
            let ghost after = self@.take(i + 1);
            assert(after =~= before.push(key));
            let better = match best {
                Some(other) => other.last_id() <= key.last_id(),
                None => true,
            };
            if key.kind() == ShardKind::Ordinary && better {
                best = Some(key);
                assert(after[i as int] == key && holds_watermark(after, i as int, key.last_id()));
            } else {
                proof {
                    if best is Some {
                        let kept = best->0;
                        let j = choose|j: int|
                            #[trigger] before[j] == kept && holds_watermark(
                                before,
                                j,
                                kept.last_id(),
                            );
                        assert(after[j] == kept && holds_watermark(after, j, kept.last_id()));
                    }
                }
            }
            i = i + 1;
        }
        assert(self@.take(i as int) =~= self@);
        best
    }

    /// The largest row ID any ordinary shard covers, or 0 when there are no ordinary shards.
    pub fn watermark(&self) -> (row: u64)
        requires
            self.wf(),
        ensures
            none_ordinary(self@) ==> row == 0,
            !none_ordinary(self@) ==> exists|i: int| #[trigger] holds_watermark(self@, i, row),
    {
        match self.last_ordinary() {
            Some(key) => key.last_id(),
            None => 0,
        }
    }

    /// The anchor timestamp of the ordinary shard that holds the watermark row, or `None` when
    /// there are no ordinary shards.
    pub fn anchor_ts(&self) -> (r: Option<u64>)
        requires
            self.wf(),
        ensures
            r is None <==> none_ordinary(self@),
            forall|i: int, row: u64|
                #[trigger] holds_watermark(self@, i, row) ==> r == Some(self@[i].anchor_ts()),
            r matches Some(anchor_ts) ==> exists|i: int|
                holds_watermark(self@, i, (#[trigger] self@[i]).last_id())
                    && self@[i].anchor_ts() == anchor_ts,
    {
        match self.last_ordinary() {
            Some(key) => {
                proof {
                    let k = choose|k: int|
                        #[trigger] self@[k] == key && holds_watermark(self@, k, key.last_id());
                    assert forall|i: int, row: u64| #[trigger]
                        holds_watermark(self@, i, row) implies self@[i] == key by {
                        lemma_disjoint(self@[i], self@[k]);
                        assert(self@[i].last_id() == self@[k].last_id());
                        if i < k {
                            assert(disjoint(self@[i], self@[k]));
                        } else if k < i {
                            lemma_disjoint(self@[k], self@[i]);
                            assert(disjoint(self@[k], self@[i]));
                        }
                    }
                }
                Some(key.anchor_ts())
            },
            None => None,
        }
    }

    /// The shards in ascending row-ID order.
    pub fn shards(&self) -> (shards: &[ShardKey])
        ensures
            shards@ == self@,
    {
        self.shards.as_slice()
    }

    /// Whether there are no shards.
    pub fn is_empty(&self) -> (r: bool)
        ensures
            r == (self@.len() == 0),
    {
        self.shards.len() == 0
    }
}

} // verus!
