//! A registry of operations keyed by id, paired with a deadline index.
//!
//! The index maps each height to the ids that (may) expire at that height,
//! and is kept sorted by height so that expired entries can be pruned from
//! the front in deterministic, bounded batches: the earliest bucket is
//! drained from its back, at most a fixed cap of entries per call, and a
//! partially drained bucket is put back with its remainder.

use vstd::prelude::*;

use crate::ops::{op_id_eq, OpId};

verus! {

/// One bucket of the deadline index: the ids that (may) leave the registry
/// once `height` is reached.
#[derive(Debug)]
pub struct Bucket {
    /// The height at which these entries fall due.
    pub height: u64,
    /// The ids due at that height.
    pub ids: Vec<OpId>,
}

/// One registry entry: an id, the height at which it falls due, and its
/// payload.
#[derive(Debug)]
pub struct Entry<V> {
    /// The operation id.
    pub id: OpId,
    /// The height at which this entry falls due (a proposal's deadline, a
    /// tombstone's expiry).
    pub height: u64,
    /// The payload.
    pub val: V,
}

/// Entries keyed by id, with a height-sorted deadline index over the same
/// ids.
#[derive(Debug)]
pub struct Registry<V> {
    /// The entries, in insertion order.
    pub entries: Vec<Entry<V>>,
    /// The deadline index, sorted by ascending height.
    pub index: Vec<Bucket>,
}

/// No two entries share an id.
pub open spec fn entries_distinct<V>(es: Seq<Entry<V>>) -> bool {
    forall|i: int, j: int|
        0 <= i < j < es.len() ==> #[trigger] es[i].id@ != #[trigger] es[j].id@
}

/// In a duplicate-free entry sequence there is only one position per id.
pub proof fn lemma_entry_index_unique<V>(es: Seq<Entry<V>>, id: Seq<u8>, i: int)
    requires
        entries_distinct(es),
        0 <= i < es.len(),
        es[i].id@ == id,
    ensures
        entry_index_of(es, id) == i,
        entry_of(es, id) == es[i],
{
    assert(entries_has(es, id));
    let w = entry_index_of(es, id);
    assert(0 <= w < es.len() && es[w].id@ == id);
    if w < i {
        assert(es[w].id@ != es[i].id@);
    } else if i < w {
        assert(es[i].id@ != es[w].id@);
    }
}

/// Some entry has the given id.
pub open spec fn entries_has<V>(es: Seq<Entry<V>>, id: Seq<u8>) -> bool {
    exists|i: int| 0 <= i < es.len() && es[i].id@ == id
}

/// Some entry has the given id and falls due at the given height.
pub open spec fn entries_has_at<V>(es: Seq<Entry<V>>, id: Seq<u8>, height: u64) -> bool {
    exists|i: int| 0 <= i < es.len() && es[i].id@ == id && es[i].height == height
}

/// The position of the entry with the given id.
pub open spec fn entry_index_of<V>(es: Seq<Entry<V>>, id: Seq<u8>) -> int {
    choose|i: int| 0 <= i < es.len() && es[i].id@ == id
}

/// The entry with the given id.
pub open spec fn entry_of<V>(es: Seq<Entry<V>>, id: Seq<u8>) -> Entry<V> {
    es[entry_index_of(es, id)]
}

/// The given id stands somewhere in the bucket.
pub open spec fn bucket_has(b: Bucket, id: Seq<u8>) -> bool {
    exists|j: int| 0 <= j < b.ids@.len() && b.ids@[j]@ == id
}

/// The index holds the id in a bucket of exactly the given height.
pub open spec fn index_has(bs: Seq<Bucket>, height: u64, id: Seq<u8>) -> bool {
    exists|i: int| 0 <= i < bs.len() && bs[i].height == height && bucket_has(bs[i], id)
}

/// Bucket heights strictly increase from front to back.
pub open spec fn index_sorted(bs: Seq<Bucket>) -> bool {
    forall|i: int, j: int| 0 <= i < j < bs.len() ==> bs[i].height < bs[j].height
}

/// No bucket is empty.
pub open spec fn buckets_nonempty(bs: Seq<Bucket>) -> bool {
    forall|i: int| 0 <= i < bs.len() ==> bs[i].ids@.len() > 0
}

/// No id occurs twice within one bucket.
pub open spec fn bucket_ids_distinct(b: Bucket) -> bool {
    forall|j1: int, j2: int| 0 <= j1 < j2 < b.ids@.len() ==> b.ids@[j1]@ != b.ids@[j2]@
}

/// Every bucket's ids are internally distinct.
pub open spec fn index_inner_distinct(bs: Seq<Bucket>) -> bool {
    forall|i: int| 0 <= i < bs.len() ==> bucket_ids_distinct(bs[i])
}

/// Entries and index describe the same id/height associations: every entry
/// is indexed under its height, and every indexed id is an entry due at
/// that bucket's height.
pub open spec fn linked<V>(es: Seq<Entry<V>>, bs: Seq<Bucket>) -> bool {
    &&& forall|i: int| 0 <= i < es.len() ==> index_has(bs, es[i].height, es[i].id@)
    &&& forall|i: int, j: int|
        0 <= i < bs.len() && 0 <= j < bs[i].ids@.len() ==> entries_has_at(
            es,
            bs[i].ids@[j]@,
            bs[i].height,
        )
}

/// The index-and-entries invariant survives appending a fresh id to an
/// existing bucket of its height.
proof fn lemma_insert_merge<V>(
    old_es: Seq<Entry<V>>,
    old_bs: Seq<Bucket>,
    new_es: Seq<Entry<V>>,
    new_bs: Seq<Bucket>,
    id: OpId,
    height: u64,
    p: int,
)
    requires
        entries_distinct(old_es),
        index_sorted(old_bs),
        buckets_nonempty(old_bs),
        index_inner_distinct(old_bs),
        linked(old_es, old_bs),
        !entries_has(old_es, id@),
        new_es.len() == old_es.len() + 1,
        forall|k: int| 0 <= k < old_es.len() ==> new_es[k] == old_es[k],
        new_es[old_es.len() as int].id@ == id@,
        new_es[old_es.len() as int].height == height,
        0 <= p < old_bs.len(),
        old_bs[p].height == height,
        new_bs.len() == old_bs.len(),
        forall|k: int| 0 <= k < new_bs.len() && k != p ==> new_bs[k] == old_bs[k],
        new_bs[p].height == height,
        new_bs[p].ids@ == old_bs[p].ids@.push(id),
    ensures
        entries_distinct(new_es),
        index_sorted(new_bs),
        buckets_nonempty(new_bs),
        index_inner_distinct(new_bs),
        linked(new_es, new_bs),
        forall|h: u64, x: Seq<u8>|
            #[trigger] index_has(new_bs, h, x) <==> index_has(old_bs, h, x) || (h == height
                && x == id@),
{
    assert forall|k: int| 0 <= k < new_bs.len() implies new_bs[k].height == old_bs[k].height by {}
    assert(index_sorted(new_bs));
    assert(buckets_nonempty(new_bs));
    // the fresh id is in no old bucket
    assert forall|i: int, j: int|
        0 <= i < old_bs.len() && 0 <= j < old_bs[i].ids@.len() implies old_bs[i].ids@[j]@
        != id@ by {
        assert(entries_has_at(old_es, old_bs[i].ids@[j]@, old_bs[i].height));
    }
    assert(index_inner_distinct(new_bs)) by {
        assert forall|i: int| 0 <= i < new_bs.len() implies bucket_ids_distinct(new_bs[i]) by {
            if i == p {
                assert forall|j1: int, j2: int|
                    0 <= j1 < j2 < new_bs[p].ids@.len() implies new_bs[p].ids@[j1]@
                    != new_bs[p].ids@[j2]@ by {
                    if j2 < old_bs[p].ids@.len() {
                        assert(bucket_ids_distinct(old_bs[p]));
                    } else {
                        assert(new_bs[p].ids@[j2]@ == id@);
                        assert(new_bs[p].ids@[j1]@ == old_bs[p].ids@[j1]@);
                    }
                }
            }
        }
    }
    assert(entries_distinct(new_es)) by {
        assert forall|i: int, j: int|
            0 <= i < j < new_es.len() implies new_es[i].id@ != new_es[j].id@ by {
            if j < old_es.len() {
                assert(old_es[i].id@ != old_es[j].id@);
            } else {
                assert(new_es[j].id@ == id@);
                if entries_has(old_es, new_es[i].id@) {
                }
                assert(entries_has(old_es, old_es[i].id@));
            }
        }
    }
    assert forall|h: u64, x: Seq<u8>|
        index_has(old_bs, h, x) implies #[trigger] index_has(new_bs, h, x) by {
        let i = choose|i: int|
            0 <= i < old_bs.len() && old_bs[i].height == h && bucket_has(old_bs[i], x);
        let j = choose|j: int| 0 <= j < old_bs[i].ids@.len() && old_bs[i].ids@[j]@ == x;
        if i == p {
            assert(new_bs[p].ids@[j]@ == x);
            assert(bucket_has(new_bs[p], x));
        } else {
            assert(bucket_has(new_bs[i], x));
        }
        assert(new_bs[i].height == h);
    }
    assert(index_has(new_bs, height, id@)) by {
        assert(new_bs[p].ids@[old_bs[p].ids@.len() as int]@ == id@);
        assert(bucket_has(new_bs[p], id@));
    }
    assert forall|h: u64, x: Seq<u8>|
        #[trigger] index_has(new_bs, h, x) implies index_has(old_bs, h, x) || (h == height
        && x == id@) by {
        let i = choose|i: int|
            0 <= i < new_bs.len() && new_bs[i].height == h && bucket_has(new_bs[i], x);
        let j = choose|j: int| 0 <= j < new_bs[i].ids@.len() && new_bs[i].ids@[j]@ == x;
        if i == p {
            if j < old_bs[p].ids@.len() {
                assert(old_bs[p].ids@[j]@ == x);
                assert(bucket_has(old_bs[p], x));
                assert(index_has(old_bs, h, x));
            } else {
                assert(x == id@);
            }
        } else {
            assert(bucket_has(old_bs[i], x));
            assert(index_has(old_bs, h, x));
        }
    }
    assert(linked(new_es, new_bs)) by {
        assert forall|i: int|
            0 <= i < new_es.len() implies index_has(new_bs, new_es[i].height, new_es[i].id@) by {
            if i < old_es.len() {
                assert(index_has(old_bs, old_es[i].height, old_es[i].id@));
            } else {
                assert(new_es[i].id@ == id@ && new_es[i].height == height);
            }
        }
        assert forall|i: int, j: int|
            0 <= i < new_bs.len() && 0 <= j < new_bs[i].ids@.len() implies entries_has_at(
            new_es,
            new_bs[i].ids@[j]@,
            new_bs[i].height,
        ) by {
            if i == p && j == old_bs[p].ids@.len() {
                assert(new_es[old_es.len() as int].id@ == id@);
                assert(entries_has_at(new_es, id@, height));
            } else {
                assert(entries_has_at(old_es, old_bs[i].ids@[j]@, old_bs[i].height));
                let k = choose|k: int|
                    0 <= k < old_es.len() && old_es[k].id@ == old_bs[i].ids@[j]@
                        && old_es[k].height == old_bs[i].height;
                assert(new_es[k] == old_es[k]);
            }
        }
    }
}

/// The index-and-entries invariant survives inserting a fresh bucket for a
/// fresh id at the sorted position of its height.
proof fn lemma_insert_fresh<V>(
    old_es: Seq<Entry<V>>,
    old_bs: Seq<Bucket>,
    new_es: Seq<Entry<V>>,
    new_bs: Seq<Bucket>,
    id: OpId,
    height: u64,
    p: int,
)
    requires
        entries_distinct(old_es),
        index_sorted(old_bs),
        buckets_nonempty(old_bs),
        index_inner_distinct(old_bs),
        linked(old_es, old_bs),
        !entries_has(old_es, id@),
        new_es.len() == old_es.len() + 1,
        forall|k: int| 0 <= k < old_es.len() ==> new_es[k] == old_es[k],
        new_es[old_es.len() as int].id@ == id@,
        new_es[old_es.len() as int].height == height,
        0 <= p <= old_bs.len(),
        forall|k: int| 0 <= k < p ==> old_bs[k].height < height,
        p < old_bs.len() ==> old_bs[p].height > height,
        new_bs.len() == old_bs.len() + 1,
        forall|k: int| 0 <= k < p ==> new_bs[k] == old_bs[k],
        new_bs[p].height == height,
        new_bs[p].ids@.len() == 1,
        new_bs[p].ids@[0]@ == id@,
        forall|k: int| p < k < new_bs.len() ==> new_bs[k] == old_bs[k - 1],
    ensures
        entries_distinct(new_es),
        index_sorted(new_bs),
        buckets_nonempty(new_bs),
        index_inner_distinct(new_bs),
        linked(new_es, new_bs),
        forall|h: u64, x: Seq<u8>|
            #[trigger] index_has(new_bs, h, x) <==> index_has(old_bs, h, x) || (h == height
                && x == id@),
{
    assert(index_sorted(new_bs)) by {
        assert forall|i: int, j: int|
            0 <= i < j < new_bs.len() implies new_bs[i].height < new_bs[j].height by {
            if j < p {
            } else if i < p && j == p {
            } else if i < p && j > p {
                assert(new_bs[j] == old_bs[j - 1]);
                assert(old_bs[i].height < height);
                if p <= j - 1 {
                    if j - 1 == p {
                        assert(old_bs[p].height > height);
                    } else {
                        assert(old_bs[p].height < old_bs[j - 1].height);
                    }
                }
            } else if i == p && j > p {
                if j - 1 == p {
                    assert(old_bs[p].height > height);
                } else {
                    assert(old_bs[p].height < old_bs[j - 1].height);
                    assert(old_bs[p].height > height);
                }
            } else {
                assert(new_bs[i] == old_bs[i - 1]);
                assert(new_bs[j] == old_bs[j - 1]);
            }
        }
    }
    assert(buckets_nonempty(new_bs));
    assert(index_inner_distinct(new_bs)) by {
        assert forall|i: int| 0 <= i < new_bs.len() implies bucket_ids_distinct(new_bs[i]) by {
            if i < p {
                assert(bucket_ids_distinct(old_bs[i]));
            } else if i > p {
                assert(bucket_ids_distinct(old_bs[i - 1]));
            }
        }
    }
    assert(entries_distinct(new_es)) by {
        assert forall|i: int, j: int|
            0 <= i < j < new_es.len() implies new_es[i].id@ != new_es[j].id@ by {
            if j < old_es.len() {
                assert(old_es[i].id@ != old_es[j].id@);
            } else {
                assert(new_es[j].id@ == id@);
                assert(entries_has(old_es, old_es[i].id@));
            }
        }
    }
    assert forall|h: u64, x: Seq<u8>|
        index_has(old_bs, h, x) implies #[trigger] index_has(new_bs, h, x) by {
        let i = choose|i: int|
            0 <= i < old_bs.len() && old_bs[i].height == h && bucket_has(old_bs[i], x);
        if i < p {
            assert(new_bs[i] == old_bs[i]);
        } else {
            assert(new_bs[i + 1] == old_bs[i]);
        }
    }
    assert(index_has(new_bs, height, id@)) by {
        assert(bucket_has(new_bs[p], id@));
    }
    assert forall|h: u64, x: Seq<u8>|
        #[trigger] index_has(new_bs, h, x) implies index_has(old_bs, h, x) || (h == height
        && x == id@) by {
        let i = choose|i: int|
            0 <= i < new_bs.len() && new_bs[i].height == h && bucket_has(new_bs[i], x);
        if i == p {
            let j = choose|j: int| 0 <= j < new_bs[p].ids@.len() && new_bs[p].ids@[j]@ == x;
            assert(j == 0);
            assert(x == id@);
        } else if i < p {
            assert(bucket_has(old_bs[i], x));
        } else {
            assert(new_bs[i] == old_bs[i - 1]);
            assert(bucket_has(old_bs[i - 1], x));
        }
    }
    assert(linked(new_es, new_bs)) by {
        assert forall|i: int|
            0 <= i < new_es.len() implies index_has(new_bs, new_es[i].height, new_es[i].id@) by {
            if i < old_es.len() {
                assert(index_has(old_bs, old_es[i].height, old_es[i].id@));
            } else {
                assert(new_es[i].id@ == id@ && new_es[i].height == height);
            }
        }
        assert forall|i: int, j: int|
            0 <= i < new_bs.len() && 0 <= j < new_bs[i].ids@.len() implies entries_has_at(
            new_es,
            new_bs[i].ids@[j]@,
            new_bs[i].height,
        ) by {
            if i == p {
                assert(new_bs[i].ids@[j]@ == id@);
                assert(entries_has_at(new_es, id@, height));
            } else {
                let ob = if i < p {
                    old_bs[i]
                } else {
                    old_bs[i - 1]
                };
                assert(new_bs[i] == ob);
                assert(entries_has_at(old_es, ob.ids@[j]@, ob.height));
                let k = choose|k: int|
                    0 <= k < old_es.len() && old_es[k].id@ == ob.ids@[j]@ && old_es[k].height
                        == ob.height;
                assert(new_es[k] == old_es[k]);
            }
        }
    }
}

/// Removing one position from a duplicate-free entry sequence removes
/// exactly that id and leaves every other entry in place.
pub proof fn lemma_entries_remove<V>(es: Seq<Entry<V>>, k: int)
    requires
        entries_distinct(es),
        0 <= k < es.len(),
    ensures
        entries_distinct(es.remove(k)),
        forall|x: Seq<u8>|
            #[trigger] entries_has(es.remove(k), x) <==> entries_has(es, x) && x != es[k].id@,
        forall|x: Seq<u8>, h: u64|
            #[trigger] entries_has_at(es.remove(k), x, h) <==> entries_has_at(es, x, h) && x
                != es[k].id@,
        forall|x: Seq<u8>|
            entries_has(es, x) && x != es[k].id@ ==> #[trigger] entry_of(es.remove(k), x)
                == entry_of(es, x),
{
    let ns = es.remove(k);
    assert forall|i: int| 0 <= i < ns.len() implies #[trigger] ns[i] == es[
        if i < k {
            i
        } else {
            i + 1
        }
    ] by {}
    assert forall|i: int, j: int|
        0 <= i < j < ns.len() implies #[trigger] ns[i].id@ != #[trigger] ns[j].id@ by {
        let i0 = if i < k { i } else { i + 1 };
        let j0 = if j < k { j } else { j + 1 };
        assert(es[i0].id@ != es[j0].id@);
    }
    assert forall|x: Seq<u8>|
        #[trigger] entries_has(ns, x) implies entries_has(es, x) && x != es[k].id@ by {
        let i = choose|i: int| 0 <= i < ns.len() && ns[i].id@ == x;
        let i0 = if i < k { i } else { i + 1 };
        assert(es[i0].id@ == x);
        if i0 < k {
            assert(es[i0].id@ != es[k].id@);
        } else if i0 > k {
            assert(es[k].id@ != es[i0].id@);
        }
    }
    assert forall|x: Seq<u8>|
        entries_has(es, x) && x != es[k].id@ implies #[trigger] entries_has(ns, x) by {
        let i = choose|i: int| 0 <= i < es.len() && es[i].id@ == x;
        if i < k {
            assert(ns[i].id@ == x);
        } else {
            assert(i > k);
            assert(ns[i - 1].id@ == x);
        }
    }
    assert forall|x: Seq<u8>, h: u64|
        #[trigger] entries_has_at(ns, x, h) implies entries_has_at(es, x, h) && x
        != es[k].id@ by {
        let i = choose|i: int| 0 <= i < ns.len() && ns[i].id@ == x && ns[i].height == h;
        let i0 = if i < k { i } else { i + 1 };
        assert(es[i0].id@ == x && es[i0].height == h);
        if i0 < k {
            assert(es[i0].id@ != es[k].id@);
        } else if i0 > k {
            assert(es[k].id@ != es[i0].id@);
        }
    }
    assert forall|x: Seq<u8>, h: u64|
        entries_has_at(es, x, h) && x != es[k].id@ implies #[trigger] entries_has_at(
        ns,
        x,
        h,
    ) by {
        let i = choose|i: int| 0 <= i < es.len() && es[i].id@ == x && es[i].height == h;
        if i < k {
            assert(ns[i].id@ == x && ns[i].height == h);
        } else {
            assert(i > k);
            assert(ns[i - 1].id@ == x && ns[i - 1].height == h);
        }
    }
    assert forall|x: Seq<u8>|
        entries_has(es, x) && x != es[k].id@ implies #[trigger] entry_of(ns, x) == entry_of(
        es,
        x,
    ) by {
        let i = choose|i: int| 0 <= i < es.len() && es[i].id@ == x;
        lemma_entry_index_unique(es, x, i);
        if i < k {
            assert(ns[i].id@ == x);
            lemma_entry_index_unique(ns, x, i);
        } else {
            assert(i > k);
            assert(ns[i - 1].id@ == x);
            lemma_entry_index_unique(ns, x, i - 1);
        }
    }
}

/// An id held by one bucket is held by no other bucket.
proof fn lemma_id_only_in_bucket<V>(es: Seq<Entry<V>>, bs: Seq<Bucket>, p: int, id: Seq<u8>)
    requires
        entries_distinct(es),
        index_sorted(bs),
        linked(es, bs),
        0 <= p < bs.len(),
        bucket_has(bs[p], id),
    ensures
        forall|q: int| 0 <= q < bs.len() && q != p ==> !bucket_has(bs[q], id),
{
    assert forall|q: int| 0 <= q < bs.len() && q != p implies !bucket_has(bs[q], id) by {
        if bucket_has(bs[q], id) {
            let jq = choose|j: int| 0 <= j < bs[q].ids@.len() && bs[q].ids@[j]@ == id;
            let jp = choose|j: int| 0 <= j < bs[p].ids@.len() && bs[p].ids@[j]@ == id;
            assert(entries_has_at(es, id, bs[q].height));
            assert(entries_has_at(es, id, bs[p].height));
            let k1 = choose|k: int|
                0 <= k < es.len() && es[k].id@ == id && es[k].height == bs[q].height;
            let k2 = choose|k: int|
                0 <= k < es.len() && es[k].id@ == id && es[k].height == bs[p].height;
            lemma_entry_index_unique(es, id, k1);
            lemma_entry_index_unique(es, id, k2);
            assert(bs[q].height == bs[p].height);
            if p < q {
                assert(bs[p].height < bs[q].height);
            } else {
                assert(bs[q].height < bs[p].height);
            }
        }
    }
}

/// The invariant survives removing one id from the bucket of its height,
/// dropping the bucket when it empties, together with removing the entry.
proof fn lemma_index_remove_id<V>(
    old_es: Seq<Entry<V>>,
    old_bs: Seq<Bucket>,
    new_es: Seq<Entry<V>>,
    new_bs: Seq<Bucket>,
    id: Seq<u8>,
    k: int,
    p: int,
    j: int,
)
    requires
        entries_distinct(old_es),
        index_sorted(old_bs),
        buckets_nonempty(old_bs),
        index_inner_distinct(old_bs),
        linked(old_es, old_bs),
        0 <= k < old_es.len(),
        old_es[k].id@ == id,
        new_es == old_es.remove(k),
        0 <= p < old_bs.len(),
        old_bs[p].height == old_es[k].height,
        0 <= j < old_bs[p].ids@.len(),
        old_bs[p].ids@[j]@ == id,
        old_bs[p].ids@.len() == 1 ==> new_bs == old_bs.remove(p),
        old_bs[p].ids@.len() > 1 ==> {
            &&& new_bs.len() == old_bs.len()
            &&& (forall|q: int| 0 <= q < new_bs.len() && q != p ==> new_bs[q] == old_bs[q])
            &&& new_bs[p].height == old_bs[p].height
            &&& new_bs[p].ids@ == old_bs[p].ids@.remove(j)
        },
    ensures
        index_sorted(new_bs),
        buckets_nonempty(new_bs),
        index_inner_distinct(new_bs),
        linked(new_es, new_bs),
        forall|h: u64, x: Seq<u8>|
            #[trigger] index_has(new_bs, h, x) <==> index_has(old_bs, h, x) && x != id,
{
    lemma_entries_remove(old_es, k);
    lemma_id_only_in_bucket(old_es, old_bs, p, id);
    let dropped = old_bs[p].ids@.len() == 1;
    // shape of the new index
    if dropped {
        assert forall|q: int| 0 <= q < new_bs.len() implies #[trigger] new_bs[q] == old_bs[
            if q < p {
                q
            } else {
                q + 1
            }
        ] by {}
        assert(index_sorted(new_bs)) by {
            assert forall|i1: int, i2: int|
                0 <= i1 < i2 < new_bs.len() implies new_bs[i1].height < new_bs[i2].height by {
                let a = if i1 < p { i1 } else { i1 + 1 };
                let b = if i2 < p { i2 } else { i2 + 1 };
                assert(old_bs[a].height < old_bs[b].height);
            }
        }
        assert(buckets_nonempty(new_bs));
        assert(index_inner_distinct(new_bs)) by {
            assert forall|i: int| 0 <= i < new_bs.len() implies bucket_ids_distinct(
                new_bs[i],
            ) by {
                let a = if i < p { i } else { i + 1 };
                assert(bucket_ids_distinct(old_bs[a]));
            }
        }
    } else {
        assert(bucket_ids_distinct(old_bs[p]));
        assert(index_sorted(new_bs));
        assert(buckets_nonempty(new_bs)) by {
            assert(new_bs[p].ids@.len() == old_bs[p].ids@.len() - 1);
        }
        assert(index_inner_distinct(new_bs)) by {
            assert forall|i: int| 0 <= i < new_bs.len() implies bucket_ids_distinct(
                new_bs[i],
            ) by {
                if i == p {
                    assert forall|j1: int, j2: int|
                        0 <= j1 < j2 < new_bs[p].ids@.len() implies new_bs[p].ids@[j1]@
                        != new_bs[p].ids@[j2]@ by {
                        let a = if j1 < j { j1 } else { j1 + 1 };
                        let b = if j2 < j { j2 } else { j2 + 1 };
                        assert(old_bs[p].ids@[a]@ != old_bs[p].ids@[b]@);
                    }
                } else {
                    assert(bucket_ids_distinct(old_bs[i]));
                }
            }
        }
    }
    // the removed id is in no new bucket; everything else carries over
    assert forall|h: u64, x: Seq<u8>|
        #[trigger] index_has(new_bs, h, x) implies index_has(old_bs, h, x) && x != id by {
        let i = choose|i: int|
            0 <= i < new_bs.len() && new_bs[i].height == h && bucket_has(new_bs[i], x);
        let jx = choose|jj: int| 0 <= jj < new_bs[i].ids@.len() && new_bs[i].ids@[jj]@ == x;
        if dropped {
            let a = if i < p { i } else { i + 1 };
            assert(new_bs[i] == old_bs[a]);
            assert(index_has(old_bs, h, x));
            assert(a != p);
            assert(x != id) by {
                if x == id {
                    assert(bucket_has(old_bs[a], id));
                }
            }
        } else {
            if i == p {
                let a = if jx < j { jx } else { jx + 1 };
                assert(old_bs[p].ids@[a]@ == x);
                assert(bucket_has(old_bs[p], x));
                assert(index_has(old_bs, h, x));
                assert(x != id) by {
                    if x == id {
                        assert(bucket_ids_distinct(old_bs[p]));
                        if a < j {
                            assert(old_bs[p].ids@[a]@ != old_bs[p].ids@[j]@);
                        } else {
                            assert(old_bs[p].ids@[j]@ != old_bs[p].ids@[a]@);
                        }
                    }
                }
            } else {
                assert(new_bs[i] == old_bs[i]);
                assert(index_has(old_bs, h, x));
                assert(x != id) by {
                    if x == id {
                        assert(bucket_has(old_bs[i], id));
                    }
                }
            }
        }
    }
    assert forall|h: u64, x: Seq<u8>|
        index_has(old_bs, h, x) && x != id implies #[trigger] index_has(new_bs, h, x) by {
        let i = choose|i: int|
            0 <= i < old_bs.len() && old_bs[i].height == h && bucket_has(old_bs[i], x);
        let jx = choose|jj: int| 0 <= jj < old_bs[i].ids@.len() && old_bs[i].ids@[jj]@ == x;
        if i == p {
            assert(jx != j);
            assert(!dropped) by {
                if dropped {
                    assert(jx == 0 && j == 0);
                }
            }
            let b = if jx < j { jx } else { jx - 1 };
            assert(new_bs[p].ids@[b]@ == x);
            assert(bucket_has(new_bs[p], x));
        } else {
            if dropped {
                let ni = if i < p { i } else { i - 1 };
                assert(new_bs[ni] == old_bs[i]);
                assert(bucket_has(new_bs[ni], x));
            } else {
                assert(new_bs[i] == old_bs[i]);
                assert(bucket_has(new_bs[i], x));
            }
        }
    }
    assert(linked(new_es, new_bs)) by {
        assert forall|i: int|
            0 <= i < new_es.len() implies index_has(new_bs, new_es[i].height, new_es[i].id@) by {
            let a = if i < k { i } else { i + 1 };
            assert(new_es[i] == old_es[a]);
            assert(index_has(old_bs, old_es[a].height, old_es[a].id@));
            assert(old_es[a].id@ != id) by {
                if a < k {
                    assert(old_es[a].id@ != old_es[k].id@);
                } else if a > k {
                    assert(old_es[k].id@ != old_es[a].id@);
                }
            }
        }
        assert forall|i: int, jj: int|
            0 <= i < new_bs.len() && 0 <= jj < new_bs[i].ids@.len() implies entries_has_at(
            new_es,
            new_bs[i].ids@[jj]@,
            new_bs[i].height,
        ) by {
            let x = new_bs[i].ids@[jj]@;
            let h = new_bs[i].height;
            assert(index_has(new_bs, h, x)) by {
                assert(bucket_has(new_bs[i], x));
            }
            assert(index_has(old_bs, h, x) && x != id);
            let oi = choose|oi: int|
                0 <= oi < old_bs.len() && old_bs[oi].height == h && bucket_has(old_bs[oi], x);
            let oj = choose|oj: int|
                0 <= oj < old_bs[oi].ids@.len() && old_bs[oi].ids@[oj]@ == x;
            assert(entries_has_at(old_es, x, h));
            assert(entries_has_at(new_es, x, h));
        }
    }
}

/// The id encodings held by a sequence of ids.
pub open spec fn id_views(ids: Seq<OpId>) -> Seq<Seq<u8>> {
    Seq::new(ids.len(), |j: int| ids[j]@)
}

/// The mathematical value of one bucket: its height and its id encodings.
pub open spec fn bucket_view(b: Bucket) -> (u64, Seq<Seq<u8>>) {
    (b.height, id_views(b.ids@))
}

/// The mathematical value of the whole index.
pub open spec fn index_view(bs: Seq<Bucket>) -> Seq<(u64, Seq<Seq<u8>>)> {
    Seq::new(bs.len(), |i: int| bucket_view(bs[i]))
}

/// What one bounded pruning pass leaves of the index, and which ids it
/// removes.
pub ghost struct PruneResult {
    /// The index after the pass.
    pub index: Seq<(u64, Seq<Seq<u8>>)>,
    /// The ids the pass removed.
    pub removed: Set<Seq<u8>>,
}

/// One bounded pruning pass over a height-sorted index: repeatedly drain
/// the earliest bucket from its back, stopping once the bucket is not yet
/// due or the budget of removals is spent; a partially drained bucket is
/// put back with its front remainder.
pub open spec fn spec_prune(
    idx: Seq<(u64, Seq<Seq<u8>>)>,
    now: u64,
    budget: nat,
) -> PruneResult
    decreases idx.len(),
{
    if budget == 0 || idx.len() == 0 || idx[0].0 > now {
        PruneResult { index: idx, removed: Set::empty() }
    } else if idx[0].1.len() <= budget {
        let rest = spec_prune(idx.drop_first(), now, (budget - idx[0].1.len()) as nat);
        PruneResult { index: rest.index, removed: rest.removed.union(idx[0].1.to_set()) }
    } else {
        let keep = idx[0].1.take(idx[0].1.len() - budget);
        let gone = idx[0].1.skip(idx[0].1.len() - budget);
        PruneResult {
            index: seq![(idx[0].0, keep)] + idx.drop_first(),
            removed: gone.to_set(),
        }
    }
}

/// A pruning pass only ever removes ids that stand in a bucket already due
/// at the given height.
pub proof fn lemma_spec_prune_removed_due(idx: Seq<(u64, Seq<Seq<u8>>)>, now: u64, budget: nat)
    ensures
        forall|x: Seq<u8>|
            #[trigger] spec_prune(idx, now, budget).removed.contains(x) ==> exists|i: int|
                0 <= i < idx.len() && (#[trigger] idx[i]).0 <= now && idx[i].1.contains(x),
    decreases idx.len(),
{
    if budget == 0 || idx.len() == 0 || idx[0].0 > now {
    } else if idx[0].1.len() <= budget {
        lemma_spec_prune_removed_due(idx.drop_first(), now, (budget - idx[0].1.len()) as nat);
        assert forall|x: Seq<u8>|
            #[trigger] spec_prune(idx, now, budget).removed.contains(x) implies exists|i: int|
            0 <= i < idx.len() && (#[trigger] idx[i]).0 <= now && idx[i].1.contains(x) by {
            if idx[0].1.to_set().contains(x) {
                assert(idx[0].0 <= now && idx[0].1.contains(x));
            } else {
                assert(spec_prune(idx.drop_first(), now, (budget - idx[0].1.len()) as nat)
                    .removed.contains(x));
                let i = choose|i: int|
                    0 <= i < idx.drop_first().len() && (#[trigger] idx.drop_first()[i]).0 <= now
                        && idx.drop_first()[i].1.contains(x);
                assert(idx[i + 1].0 <= now && idx[i + 1].1.contains(x));
            }
        }
    } else {
        assert forall|x: Seq<u8>|
            #[trigger] spec_prune(idx, now, budget).removed.contains(x) implies exists|i: int|
            0 <= i < idx.len() && (#[trigger] idx[i]).0 <= now && idx[i].1.contains(x) by {
            let m = idx[0].1.len() as int;
            let sk = idx[0].1.skip(m - budget);
            assert(sk.contains(x));
            let j = choose|j: int| 0 <= j < sk.len() && sk[j] == x;
            assert(idx[0].1[j + (m - budget)] == x);
            assert(idx[0].0 <= now && idx[0].1.contains(x));
        }
    }
}

/// Removes the entries whose ids stand in `ids`.
fn remove_ids_from_entries<V>(es: &mut Vec<Entry<V>>, ids: &Vec<OpId>)
    requires
        entries_distinct(old(es)@),
        forall|j1: int, j2: int| 0 <= j1 < j2 < ids@.len() ==> ids@[j1]@ != ids@[j2]@,
        forall|j: int| 0 <= j < ids@.len() ==> entries_has(old(es)@, ids@[j]@),
    ensures
        entries_distinct(final(es)@),
        forall|x: Seq<u8>|
            #[trigger] entries_has(final(es)@, x) <==> entries_has(old(es)@, x)
                && !id_views(ids@).contains(x),
        forall|x: Seq<u8>|
            entries_has(final(es)@, x) ==> #[trigger] entry_of(final(es)@, x) == entry_of(
                old(es)@,
                x,
            ),
        final(es)@.len() + ids@.len() == old(es)@.len(),
{
    let ghost orig = es@;
    let mut i: usize = 0;
    while i < ids.len()
        invariant
            i <= ids@.len(),
            entries_distinct(es@),
            forall|j1: int, j2: int| 0 <= j1 < j2 < ids@.len() ==> ids@[j1]@ != ids@[j2]@,
            forall|j: int| 0 <= j < ids@.len() ==> entries_has(orig, ids@[j]@),
            forall|x: Seq<u8>|
                #[trigger] entries_has(es@, x) <==> entries_has(orig, x) && !(exists|j: int|
                    0 <= j < i && ids@[j]@ == x),
            forall|x: Seq<u8>|
                entries_has(es@, x) ==> #[trigger] entry_of(es@, x) == entry_of(orig, x),
            es@.len() + i == orig.len(),
        decreases ids@.len() - i,
    {
        let ghost before = es@;
        let id = &ids[i];
        proof {
            assert(entries_has(orig, id@));
            assert(!(exists|j: int| 0 <= j < i && ids@[j]@ == id@)) by {
                if exists|j: int| 0 <= j < i && ids@[j]@ == id@ {
                    let j = choose|j: int| 0 <= j < i && ids@[j]@ == id@;
                    assert(ids@[j]@ != ids@[i as int]@);
                }
            }
            assert(entries_has(es@, id@));
        }
        let mut k: usize = 0;
        while !op_id_eq(&es[k].id, id)
            invariant
                entries_distinct(es@),
                entries_has(es@, id@),
                k <= es@.len(),
                forall|q: int| 0 <= q < k ==> es@[q].id@ != id@,
            decreases es@.len() - k,
        {
            let n = es.len();
            proof {
                let w = choose|w: int| 0 <= w < es@.len() && es@[w].id@ == id@;
                if k as int >= w {
                    assert(k < es@.len());
                } else {
                    assert(k < es@.len());
                }
                assert(k < n);
            }
            k += 1;
        }
        proof {
            lemma_entry_index_unique(es@, id@, k as int);
            lemma_entries_remove(es@, k as int);
        }
        es.remove(k);
        i += 1;
        proof {
            assert forall|x: Seq<u8>|
                #[trigger] entries_has(es@, x) <==> entries_has(orig, x) && !(exists|j: int|
                    0 <= j < i && ids@[j]@ == x) by {
                assert(entries_has(es@, x) <==> entries_has(before, x) && x != ids@[i - 1]@);
                if entries_has(orig, x) {
                    if exists|j: int| 0 <= j < i && ids@[j]@ == x {
                        let j = choose|j: int| 0 <= j < i && ids@[j]@ == x;
                        if j < i - 1 {
                            assert(!entries_has(before, x));
                        } else {
                            assert(x == ids@[i - 1]@);
                        }
                    }
                }
            }
            assert forall|x: Seq<u8>|
                entries_has(es@, x) implies #[trigger] entry_of(es@, x) == entry_of(
                orig,
                x,
            ) by {
                assert(entries_has(before, x) && x != ids@[i - 1]@);
                assert(entry_of(es@, x) == entry_of(before, x));
            }
        }
    }
    proof {
        assert forall|x: Seq<u8>|
            #[trigger] entries_has(es@, x) <==> entries_has(orig, x) && !id_views(
            ids@,
        ).contains(x) by {
            assert((exists|j: int| 0 <= j < ids@.len() && ids@[j]@ == x) <==> id_views(
                ids@,
            ).contains(x)) by {
                if exists|j: int| 0 <= j < ids@.len() && ids@[j]@ == x {
                    let j = choose|j: int| 0 <= j < ids@.len() && ids@[j]@ == x;
                    assert(id_views(ids@)[j] == x);
                }
                if id_views(ids@).contains(x) {
                    let j = choose|j: int| 0 <= j < id_views(ids@).len() && id_views(ids@)[j] == x;
                    assert(ids@[j]@ == x);
                }
            }
        }
    }
}

/// Appending an entry with a fresh id adds exactly that id and leaves the
/// other entries in place.
pub proof fn lemma_entries_push<V>(es: Seq<Entry<V>>, en: Entry<V>)
    requires
        entries_distinct(es),
        !entries_has(es, en.id@),
    ensures
        forall|x: Seq<u8>|
            #[trigger] entries_has(es.push(en), x) <==> entries_has(es, x) || x == en.id@,
        forall|x: Seq<u8>|
            x != en.id@ && entries_has(es, x) ==> #[trigger] entry_of(es.push(en), x)
                == entry_of(es, x),
        entries_distinct(es.push(en)),
        entry_of(es.push(en), en.id@) == en,
{
    let ns = es.push(en);
    assert(ns[es.len() as int] == en);
    assert(entries_distinct(ns)) by {
        assert forall|i: int, j: int|
            0 <= i < j < ns.len() implies ns[i].id@ != ns[j].id@ by {
            if j < es.len() {
                assert(es[i].id@ != es[j].id@);
            } else {
                assert(ns[j] == en);
                assert(entries_has(es, es[i].id@)) by {
                    assert(es[i].id@ == es[i].id@);
                }
            }
        }
    }
    assert forall|x: Seq<u8>|
        #[trigger] entries_has(ns, x) implies entries_has(es, x) || x == en.id@ by {
        let q = choose|q: int| 0 <= q < ns.len() && ns[q].id@ == x;
        if q < es.len() {
            assert(es[q].id@ == x);
        }
    }
    assert forall|x: Seq<u8>|
        entries_has(es, x) implies #[trigger] entries_has(ns, x) by {
        let q = choose|q: int| 0 <= q < es.len() && es[q].id@ == x;
        assert(ns[q].id@ == x);
    }
    lemma_entry_index_unique(ns, en.id@, es.len() as int);
    assert forall|x: Seq<u8>|
        x != en.id@ && entries_has(es, x) implies #[trigger] entry_of(ns, x) == entry_of(
        es,
        x,
    ) by {
        let q = choose|q: int| 0 <= q < es.len() && es[q].id@ == x;
        lemma_entry_index_unique(es, x, q);
        assert(ns[q].id@ == x);
        lemma_entry_index_unique(ns, x, q);
    }
}

/// With distinct ids, an entry is at a height exactly when it is the
/// unique entry of its id and has that height.
pub proof fn lemma_has_at_iff<V>(es: Seq<Entry<V>>, x: Seq<u8>, h: u64)
    requires
        entries_distinct(es),
    ensures
        entries_has_at(es, x, h) <==> (entries_has(es, x) && entry_of(es, x).height == h),
{
    if entries_has_at(es, x, h) {
        let k = choose|k: int| 0 <= k < es.len() && es[k].id@ == x && es[k].height == h;
        lemma_entry_index_unique(es, x, k);
    }
    if entries_has(es, x) && entry_of(es, x).height == h {
        let k = choose|k: int| 0 <= k < es.len() && es[k].id@ == x;
        lemma_entry_index_unique(es, x, k);
        assert(es[k].height == h);
    }
}

/// The invariant survives draining a due bucket from its back: the bucket
/// keeps its first `keep_count` ids (or disappears when none are kept) and
/// exactly the dropped ids leave the entries.
proof fn lemma_prune_bucket<V>(
    old_es: Seq<Entry<V>>,
    old_bs: Seq<Bucket>,
    new_es: Seq<Entry<V>>,
    new_bs: Seq<Bucket>,
    keep_count: int,
)
    requires
        entries_distinct(old_es),
        index_sorted(old_bs),
        buckets_nonempty(old_bs),
        index_inner_distinct(old_bs),
        linked(old_es, old_bs),
        old_bs.len() > 0,
        0 <= keep_count <= old_bs[0].ids@.len(),
        keep_count == 0 ==> new_bs == old_bs.drop_first(),
        keep_count > 0 ==> {
            &&& new_bs.len() == old_bs.len()
            &&& new_bs[0].height == old_bs[0].height
            &&& new_bs[0].ids@ == old_bs[0].ids@.take(keep_count)
            &&& (forall|q: int| 1 <= q < new_bs.len() ==> new_bs[q] == old_bs[q])
        },
        entries_distinct(new_es),
        forall|x: Seq<u8>|
            #[trigger] entries_has(new_es, x) <==> entries_has(old_es, x) && !id_views(
                old_bs[0].ids@,
            ).skip(keep_count).contains(x),
        forall|x: Seq<u8>|
            entries_has(new_es, x) ==> #[trigger] entry_of(new_es, x) == entry_of(old_es, x),
    ensures
        index_sorted(new_bs),
        buckets_nonempty(new_bs),
        index_inner_distinct(new_bs),
        linked(new_es, new_bs),
{
    let m = old_bs[0].ids@.len() as int;
    let gone = id_views(old_bs[0].ids@).skip(keep_count);
    // membership in `gone` means a back position of bucket 0
    assert forall|x: Seq<u8>| #[trigger] gone.contains(x) implies exists|j: int|
        keep_count <= j < m && old_bs[0].ids@[j]@ == x by {
        let j = choose|j: int| 0 <= j < gone.len() && gone[j] == x;
        assert(gone[j] == id_views(old_bs[0].ids@)[j + keep_count]);
        assert(old_bs[0].ids@[j + keep_count]@ == x);
    }
    assert forall|j: int|
        keep_count <= j < m implies #[trigger] gone.contains(old_bs[0].ids@[j]@) by {
        assert(gone[j - keep_count] == id_views(old_bs[0].ids@)[j]);
    }
    if keep_count == 0 {
        assert forall|q: int| 0 <= q < new_bs.len() implies #[trigger] new_bs[q] == old_bs[q
            + 1] by {}
        assert(index_sorted(new_bs)) by {
            assert forall|i: int, j: int|
                0 <= i < j < new_bs.len() implies new_bs[i].height < new_bs[j].height by {
                assert(old_bs[i + 1].height < old_bs[j + 1].height);
            }
        }
        assert(buckets_nonempty(new_bs));
        assert(index_inner_distinct(new_bs)) by {
            assert forall|i: int| 0 <= i < new_bs.len() implies bucket_ids_distinct(
                new_bs[i],
            ) by {
                assert(bucket_ids_distinct(old_bs[i + 1]));
            }
        }
    } else {
        assert(index_sorted(new_bs)) by {
            assert forall|i: int, j: int|
                0 <= i < j < new_bs.len() implies new_bs[i].height < new_bs[j].height by {
                assert(new_bs[j] == old_bs[j]);
                if i > 0 {
                    assert(new_bs[i] == old_bs[i]);
                }
            }
        }
        assert(buckets_nonempty(new_bs)) by {
            assert(new_bs[0].ids@.len() == keep_count);
        }
        assert(index_inner_distinct(new_bs)) by {
            assert forall|i: int| 0 <= i < new_bs.len() implies bucket_ids_distinct(
                new_bs[i],
            ) by {
                if i == 0 {
                    assert(bucket_ids_distinct(old_bs[0]));
                    assert forall|j1: int, j2: int|
                        0 <= j1 < j2 < new_bs[0].ids@.len() implies new_bs[0].ids@[j1]@
                        != new_bs[0].ids@[j2]@ by {
                        assert(old_bs[0].ids@[j1]@ != old_bs[0].ids@[j2]@);
                    }
                } else {
                    assert(bucket_ids_distinct(old_bs[i]));
                }
            }
        }
    }
    assert(linked(new_es, new_bs)) by {
        assert forall|i: int|
            0 <= i < new_es.len() implies index_has(new_bs, new_es[i].height, new_es[i].id@) by {
            let x = new_es[i].id@;
            let h = new_es[i].height;
            assert(entries_has(new_es, x)) by {
                assert(new_es[i].id@ == x);
            }
            assert(entries_has(old_es, x) && !gone.contains(x));
            assert(entry_of(new_es, x) == entry_of(old_es, x));
            lemma_entry_index_unique(new_es, x, i);
            let k = entry_index_of(old_es, x);
            assert(0 <= k < old_es.len() && old_es[k].id@ == x) by {
                let k0 = choose|k0: int| 0 <= k0 < old_es.len() && old_es[k0].id@ == x;
                lemma_entry_index_unique(old_es, x, k0);
            }
            assert(old_es[k].height == h);
            assert(index_has(old_bs, h, x));
            let w = choose|w: int|
                0 <= w < old_bs.len() && old_bs[w].height == h && bucket_has(old_bs[w], x);
            let j = choose|j: int| 0 <= j < old_bs[w].ids@.len() && old_bs[w].ids@[j]@ == x;
            if w == 0 {
                assert(j < keep_count) by {
                    if j >= keep_count {
                        assert(gone.contains(x));
                    }
                }
                assert(keep_count > 0);
                assert(new_bs[0].ids@[j]@ == x);
                assert(bucket_has(new_bs[0], x));
                assert(new_bs[0].height == h);
            } else {
                if keep_count == 0 {
                    assert(new_bs[w - 1] == old_bs[w]);
                    assert(bucket_has(new_bs[w - 1], x));
                } else {
                    assert(new_bs[w] == old_bs[w]);
                    assert(bucket_has(new_bs[w], x));
                }
            }
        }
        assert forall|i: int, j: int|
            0 <= i < new_bs.len() && 0 <= j < new_bs[i].ids@.len() implies entries_has_at(
            new_es,
            new_bs[i].ids@[j]@,
            new_bs[i].height,
        ) by {
            let x = new_bs[i].ids@[j]@;
            let h = new_bs[i].height;
            let oi = if keep_count == 0 {
                i + 1
            } else {
                i
            };
            let in_bucket0 = keep_count > 0 && i == 0;
            if in_bucket0 {
                assert(new_bs[0].ids@[j]@ == old_bs[0].ids@[j]@);
                assert(bucket_has(old_bs[0], x)) by {
                    assert(old_bs[0].ids@[j]@ == x);
                }
                assert(entries_has_at(old_es, x, old_bs[0].height));
                assert(!gone.contains(x)) by {
                    if gone.contains(x) {
                        let j2 = choose|j2: int|
                            keep_count <= j2 < m && old_bs[0].ids@[j2]@ == x;
                        assert(bucket_ids_distinct(old_bs[0]));
                        assert(old_bs[0].ids@[j]@ != old_bs[0].ids@[j2]@);
                    }
                }
            } else {
                assert(new_bs[i] == old_bs[oi]);
                assert(bucket_has(old_bs[oi], x)) by {
                    assert(old_bs[oi].ids@[j]@ == x);
                }
                assert(entries_has_at(old_es, x, old_bs[oi].height));
                assert(!gone.contains(x)) by {
                    if gone.contains(x) {
                        let j2 = choose|j2: int|
                            keep_count <= j2 < m && old_bs[0].ids@[j2]@ == x;
                        assert(bucket_has(old_bs[0], x)) by {
                            assert(old_bs[0].ids@[j2]@ == x);
                        }
                        lemma_id_only_in_bucket(old_es, old_bs, 0, x);
                        assert(!bucket_has(old_bs[oi], x));
                    }
                }
            }
            assert(entries_has_at(old_es, x, h));
            assert(entries_has(old_es, x)) by {
                let k = choose|k: int|
                    0 <= k < old_es.len() && old_es[k].id@ == x && old_es[k].height == h;
                assert(old_es[k].id@ == x);
            }
            assert(entries_has(new_es, x));
            lemma_has_at_iff(old_es, x, h);
            lemma_has_at_iff(new_es, x, h);
        }
    }
}

impl<V> Registry<V> {
    /// The well-formedness invariant tying entries and index together.
    pub open spec fn wf(&self) -> bool {
        &&& entries_distinct(self.entries@)
        &&& index_sorted(self.index@)
        &&& buckets_nonempty(self.index@)
        &&& index_inner_distinct(self.index@)
        &&& linked(self.entries@, self.index@)
    }

    /// The registry holds an entry with this id.
    pub open spec fn has(&self, id: Seq<u8>) -> bool {
        entries_has(self.entries@, id)
    }

    /// The height at which the entry with this id falls due.
    pub open spec fn height_of(&self, id: Seq<u8>) -> u64 {
        entry_of(self.entries@, id).height
    }

    /// The payload of the entry with this id.
    pub open spec fn val_of(&self, id: Seq<u8>) -> V {
        entry_of(self.entries@, id).val
    }

    /// An empty registry.
    pub fn new() -> (r: Self)
        ensures
            r.wf(),
            r.entries@.len() == 0,
            r.index@.len() == 0,
    {
        Registry { entries: Vec::new(), index: Vec::new() }
    }

    /// Finds the position of the entry with the given id.
    pub fn find(&self, id: &OpId) -> (r: Option<usize>)
        requires
            entries_distinct(self.entries@),
        ensures
            match r {
                Some(i) => i < self.entries@.len() && self.entries@[i as int].id@ == id@
                    && self.has(id@) && i == entry_index_of(self.entries@, id@),
                None => !self.has(id@),
            },
    {
        let mut i: usize = 0;
        while i < self.entries.len()
            invariant
                entries_distinct(self.entries@),
                i <= self.entries@.len(),
                forall|k: int| 0 <= k < i ==> self.entries@[k].id@ != id@,
            decreases self.entries@.len() - i,
        {
            if op_id_eq(&self.entries[i].id, id) {
                proof {
                    lemma_entry_index_unique(self.entries@, id@, i as int);
                }
                return Some(i);
            }
            i += 1;
        }
        None
    }

    /// Returns `true` if the registry holds the given id.
    pub fn contains(&self, id: &OpId) -> (r: bool)
        requires
            entries_distinct(self.entries@),
        ensures
            r == self.has(id@),
    {
        self.find(id).is_some()
    }

    /// Adds an entry for a fresh id, indexing it under its height.
    pub fn insert(&mut self, id: OpId, height: u64, val: V)
        requires
            old(self).wf(),
            !old(self).has(id@),
        ensures
            final(self).wf(),
            final(self).entries@ == old(self).entries@.push(
                Entry { id, height, val },
            ),
            forall|h: u64, x: Seq<u8>|
                #[trigger] index_has(final(self).index@, h, x) <==> index_has(
                    old(self).index@,
                    h,
                    x,
                ) || (h == height && x == id@),
    {
        let ghost old_bs = self.index@;
        let ghost old_es = self.entries@;
        self.entries.push(Entry { id, height, val });
        let mut p: usize = 0;
        while p < self.index.len() && self.index[p].height < height
            invariant
                p <= self.index@.len(),
                self.index@ == old_bs,
                forall|k: int| 0 <= k < p ==> self.index@[k].height < height,
            decreases self.index@.len() - p,
        {
            p += 1;
        }
        if p < self.index.len() && self.index[p].height == height {
            let mut b = self.index.remove(p);
            b.ids.push(id);
            self.index.insert(p, b);
            proof {
                assert(self.index@ =~= old_bs.update(
                    p as int,
                    Bucket { height, ids: self.index@[p as int].ids },
                ));
                lemma_insert_merge(
                    old_es,
                    old_bs,
                    self.entries@,
                    self.index@,
                    id,
                    height,
                    p as int,
                );
            }
        } else {
            let mut ids: Vec<OpId> = Vec::new();
            ids.push(id);
            self.index.insert(p, Bucket { height, ids });
            proof {
                lemma_insert_fresh(
                    old_es,
                    old_bs,
                    self.entries@,
                    self.index@,
                    id,
                    height,
                    p as int,
                );
            }
        }
    }

    /// Removes the entry with the given id and unindexes it, dropping its
    /// bucket if that leaves the bucket empty. Returns the entry.
    pub fn remove(&mut self, id: &OpId) -> (r: Entry<V>)
        requires
            old(self).wf(),
            old(self).has(id@),
        ensures
            final(self).wf(),
            r == entry_of(old(self).entries@, id@),
            final(self).entries@ == old(self).entries@.remove(
                entry_index_of(old(self).entries@, id@),
            ),
            forall|h: u64, x: Seq<u8>|
                #[trigger] index_has(final(self).index@, h, x) <==> index_has(
                    old(self).index@,
                    h,
                    x,
                ) && x != id@,
    {
        let ghost old_es = self.entries@;
        let ghost old_bs = self.index@;
        let k = match self.find(id) {
            Some(k) => k,
            None => {
                proof {
                    assert(false);
                }
                0
            },
        };
        let e = self.entries.remove(k);
        let ghost wp = choose|i: int|
            0 <= i < old_bs.len() && old_bs[i].height == e.height && bucket_has(old_bs[i], id@);
        proof {
            assert(index_has(old_bs, old_es[k as int].height, old_es[k as int].id@));
            assert(0 <= wp < old_bs.len() && old_bs[wp].height == e.height && bucket_has(
                old_bs[wp],
                id@,
            ));
        }
        let mut p: usize = 0;
        while self.index[p].height != e.height
            invariant
                self.index@ == old_bs,
                0 <= wp < old_bs.len(),
                old_bs[wp].height == e.height,
                bucket_has(old_bs[wp], id@),
                0 <= p <= wp,
                forall|q: int| 0 <= q < p ==> old_bs[q].height != e.height,
            decreases old_bs.len() - p,
        {
            let n = self.index.len();
            proof {
                if p as int == wp {
                    assert(false);
                }
                assert(p < n);
            }
            p += 1;
        }
        let ghost wj = choose|j: int|
            0 <= j < old_bs[p as int].ids@.len() && old_bs[p as int].ids@[j]@ == id@;
        proof {
            lemma_id_only_in_bucket(old_es, old_bs, wp, id@);
            if p as int != wp {
                assert(!bucket_has(old_bs[p as int], id@));
                assert(index_sorted(old_bs));
                if (p as int) < wp {
                    assert(old_bs[p as int].height < old_bs[wp].height);
                } else {
                    assert(old_bs[wp].height < old_bs[p as int].height);
                }
            }
            assert(bucket_has(old_bs[p as int], id@));
        }
        let mut b = self.index.remove(p);
        let mut j: usize = 0;
        while !op_id_eq(&b.ids[j], id)
            invariant
                p < old_bs.len(),
                b == old_bs[p as int],
                0 <= wj < b.ids@.len(),
                b.ids@[wj]@ == id@,
                0 <= j <= wj,
                forall|q: int| 0 <= q < j ==> b.ids@[q]@ != id@,
            decreases b.ids@.len() - j,
        {
            let n = b.ids.len();
            proof {
                if j as int == wj {
                    assert(false);
                }
                assert(j < n);
            }
            j += 1;
        }
        b.ids.remove(j);
        if b.ids.len() > 0 {
            self.index.insert(p, b);
            proof {
                assert(self.index@ =~= old_bs.update(p as int, self.index@[p as int]));
            }
        } else {
            proof {
                assert(old_bs[p as int].ids@.len() == 1);
                assert(self.index@ =~= old_bs.remove(p as int));
            }
        }
        proof {
            lemma_entry_index_unique(old_es, id@, k as int);
            lemma_index_remove_id(
                old_es,
                old_bs,
                self.entries@,
                self.index@,
                id@,
                k as int,
                p as int,
                j as int,
            );
        }
        e
    }

    /// One bounded pruning pass: drains the earliest due buckets from the
    /// back, removing at most `cap` entries, and puts a partially drained
    /// bucket back with its front remainder. What it does is pinned by
    /// [`spec_prune`]; entries that are not yet due always survive.
    pub fn prune(&mut self, now: u64, cap: u32)
        requires
            old(self).wf(),
        ensures
            final(self).wf(),
            index_view(final(self).index@) == spec_prune(
                index_view(old(self).index@),
                now,
                cap as nat,
            ).index,
            forall|x: Seq<u8>|
                #[trigger] final(self).has(x) <==> old(self).has(x) && !spec_prune(
                    index_view(old(self).index@),
                    now,
                    cap as nat,
                ).removed.contains(x),
            forall|x: Seq<u8>|
                final(self).has(x) ==> #[trigger] entry_of(final(self).entries@, x) == entry_of(
                    old(self).entries@,
                    x,
                ),
            final(self).entries@.len() + cap as int >= old(self).entries@.len(),
            forall|x: Seq<u8>|
                #[trigger] spec_prune(
                    index_view(old(self).index@),
                    now,
                    cap as nat,
                ).removed.contains(x) ==> old(self).has(x) && old(self).height_of(x) <= now,
    {
        let ghost orig_es = self.entries@;
        let ghost orig_view = index_view(self.index@);
        let ghost full = spec_prune(orig_view, now, cap as nat);
        let mut budget: u32 = cap;
        let ghost mut removed_ghost: Set<Seq<u8>> = Set::empty();
        loop
            invariant_except_break
                self.wf(),
                budget <= cap,
                spec_prune(index_view(self.index@), now, budget as nat).index == full.index,
                full.removed == removed_ghost.union(
                    spec_prune(index_view(self.index@), now, budget as nat).removed,
                ),
                forall|x: Seq<u8>|
                    #[trigger] entries_has(self.entries@, x) <==> entries_has(orig_es, x)
                        && !removed_ghost.contains(x),
                forall|x: Seq<u8>|
                    entries_has(self.entries@, x) ==> #[trigger] entry_of(self.entries@, x)
                        == entry_of(orig_es, x),
                self.entries@.len() + cap as int - budget as int == orig_es.len(),
                forall|x: Seq<u8>|
                    #[trigger] removed_ghost.contains(x) ==> entries_has(orig_es, x) && entry_of(
                        orig_es,
                        x,
                    ).height <= now,
            ensures
                self.wf(),
                index_view(self.index@) == full.index,
                forall|x: Seq<u8>|
                    #[trigger] entries_has(self.entries@, x) <==> entries_has(orig_es, x)
                        && !full.removed.contains(x),
                forall|x: Seq<u8>|
                    entries_has(self.entries@, x) ==> #[trigger] entry_of(self.entries@, x)
                        == entry_of(orig_es, x),
                self.entries@.len() + cap as int >= orig_es.len(),
                forall|x: Seq<u8>|
                    #[trigger] full.removed.contains(x) ==> entries_has(orig_es, x) && entry_of(
                        orig_es,
                        x,
                    ).height <= now,
            decreases self.index@.len(),
        {
            let ghost cur_view = index_view(self.index@);
            let ghost cur = spec_prune(cur_view, now, budget as nat);
            if budget == 0 {
                proof {
                    assert(cur.index == cur_view && cur.removed == Set::<Seq<u8>>::empty());
                    assert(full.removed =~= removed_ghost);
                }
                break;
            }
            if self.index.len() == 0 {
                proof {
                    assert(cur.index == cur_view && cur.removed == Set::<Seq<u8>>::empty());
                    assert(full.removed =~= removed_ghost);
                }
                break;
            }
            if self.index[0].height > now {
                proof {
                    assert(cur_view[0].0 > now);
                    assert(cur.index == cur_view && cur.removed == Set::<Seq<u8>>::empty());
                    assert(full.removed =~= removed_ghost);
                }
                break;
            }
            let ghost pre = *self;
            let mut bucket = self.index.remove(0);
            proof {
                assert(cur_view[0] == bucket_view(bucket));
                assert(cur_view[0].0 == bucket.height && bucket.height <= now);
                assert(index_view(self.index@) =~= cur_view.drop_first());
                // the drained ids are entries of the current state
                assert(bucket_ids_distinct(bucket)) by {
                    assert(bucket == pre.index@[0]);
                }
                assert forall|j: int|
                    0 <= j < bucket.ids@.len() implies entries_has(
                    self.entries@,
                    bucket.ids@[j]@,
                ) by {
                    assert(entries_has_at(pre.entries@, pre.index@[0].ids@[j]@, bucket.height));
                    let k = choose|k: int|
                        0 <= k < self.entries@.len() && self.entries@[k].id@ == bucket.ids@[j]@
                            && self.entries@[k].height == bucket.height;
                    assert(self.entries@[k].id@ == bucket.ids@[j]@);
                }
            }
            let m = bucket.ids.len();
            if m <= budget as usize {
                let ghost es_before = self.entries@;
                remove_ids_from_entries(&mut self.entries, &bucket.ids);
                proof {
                    assert(self.index@ =~= pre.index@.drop_first());
                    let b0set = id_views(bucket.ids@).to_set();
                    let rest = spec_prune(cur_view.drop_first(), now, (budget - m) as nat);
                    assert(cur.index == rest.index && cur.removed == rest.removed.union(
                        cur_view[0].1.to_set(),
                    ));
                    assert(cur_view[0].1 == id_views(bucket.ids@));
                    // membership of the drained set
                    assert forall|x: Seq<u8>| #[trigger]
                        b0set.contains(x) implies entries_has(es_before, x) && entry_of(
                        es_before,
                        x,
                    ).height == bucket.height by {
                        let j = choose|j: int|
                            0 <= j < id_views(bucket.ids@).len() && id_views(bucket.ids@)[j]
                                == x;
                        assert(bucket.ids@[j]@ == x);
                        assert(entries_has(es_before, x));
                        assert(entries_has_at(pre.entries@, pre.index@[0].ids@[j]@, bucket.height));
                        lemma_has_at_iff(es_before, x, bucket.height);
                    }
                    assert(id_views(pre.index@[0].ids@).skip(0) =~= id_views(bucket.ids@));
                    lemma_prune_bucket(
                        es_before,
                        pre.index@,
                        self.entries@,
                        self.index@,
                        0,
                    );
                    removed_ghost = removed_ghost.union(b0set);
                    assert(full.removed =~= removed_ghost.union(rest.removed));
                    // carry the origin facts for the newly removed ids
                    assert forall|x: Seq<u8>| #[trigger]
                        removed_ghost.contains(x) implies entries_has(orig_es, x) && entry_of(
                        orig_es,
                        x,
                    ).height <= now by {
                        if b0set.contains(x) {
                            assert(entries_has(es_before, x));
                            assert(entries_has(orig_es, x));
                            assert(entry_of(es_before, x) == entry_of(orig_es, x));
                        }
                    }
                    assert forall|x: Seq<u8>|
                        #[trigger] entries_has(self.entries@, x) <==> entries_has(orig_es, x)
                            && !removed_ghost.contains(x) by {
                        assert(entries_has(self.entries@, x) <==> entries_has(es_before, x)
                            && !b0set.contains(x));
                    }
                }
                budget = budget - m as u32;
            } else {
                let keep_len = m - budget as usize;
                let removed_vec = bucket.ids.split_off(keep_len);
                let ghost es_before = self.entries@;
                proof {
                    assert forall|j1: int, j2: int|
                        0 <= j1 < j2 < removed_vec@.len() implies removed_vec@[j1]@
                        != removed_vec@[j2]@ by {
                        assert(bucket_ids_distinct(pre.index@[0]));
                        assert(removed_vec@[j1] == pre.index@[0].ids@[j1 + keep_len]);
                        assert(removed_vec@[j2] == pre.index@[0].ids@[j2 + keep_len]);
                        assert(pre.index@[0].ids@[j1 + keep_len]@ != pre.index@[0].ids@[j2
                            + keep_len]@);
                    }
                    assert forall|j: int|
                        0 <= j < removed_vec@.len() implies entries_has(
                        self.entries@,
                        removed_vec@[j]@,
                    ) by {
                        assert(removed_vec@[j] == pre.index@[0].ids@[j + keep_len]);
                    }
                }
                remove_ids_from_entries(&mut self.entries, &removed_vec);
                self.index.insert(0, bucket);
                proof {
                    let gone = id_views(pre.index@[0].ids@).skip(keep_len as int);
                    let goneset = gone.to_set();
                    assert(cur.index == seq![(cur_view[0].0, cur_view[0].1.take(m - budget as int))]
                        + cur_view.drop_first() && cur.removed == cur_view[0].1.skip(
                        m - budget as int,
                    ).to_set());
                    assert(gone =~= id_views(removed_vec@)) by {
                        assert forall|j: int| 0 <= j < gone.len() implies gone[j] == id_views(
                            removed_vec@,
                        )[j] by {
                            assert(gone[j] == id_views(pre.index@[0].ids@)[j + keep_len]);
                            assert(removed_vec@[j] == pre.index@[0].ids@[j + keep_len]);
                        }
                    }
                    assert forall|x: Seq<u8>| #[trigger]
                        goneset.contains(x) implies entries_has(es_before, x) && entry_of(
                        es_before,
                        x,
                    ).height == pre.index@[0].height by {
                        let j = choose|j: int| 0 <= j < gone.len() && gone[j] == x;
                        assert(pre.index@[0].ids@[j + keep_len]@ == x);
                        assert(entries_has_at(
                            pre.entries@,
                            pre.index@[0].ids@[j + keep_len]@,
                            pre.index@[0].height,
                        ));
                        lemma_has_at_iff(es_before, x, pre.index@[0].height);
                    }
                    assert(self.index@[0].height == pre.index@[0].height && self.index@[0].ids@
                        =~= pre.index@[0].ids@.take(keep_len as int));
                    assert(forall|q: int|
                        1 <= q < self.index@.len() ==> self.index@[q] == pre.index@[q]);
                    lemma_prune_bucket(
                        es_before,
                        pre.index@,
                        self.entries@,
                        self.index@,
                        keep_len as int,
                    );
                    // the new index view matches the spec's partial result
                    assert(index_view(self.index@) =~= cur.index) by {
                        assert forall|q: int|
                            0 <= q < self.index@.len() implies index_view(self.index@)[q]
                            == cur.index[q] by {
                            if q == 0 {
                                assert(index_view(self.index@)[0] == bucket_view(self.index@[0]));
                                assert(cur.index[0] == (
                                    cur_view[0].0,
                                    cur_view[0].1.take(m - budget as int),
                                ));
                                assert(id_views(pre.index@[0].ids@.take(keep_len as int))
                                    =~= id_views(pre.index@[0].ids@).take(keep_len as int));
                                assert(cur_view[0].1.take(m - budget as int) == id_views(
                                    pre.index@[0].ids@,
                                ).take(keep_len as int));
                            } else {
                                assert(cur.index[q] == cur_view.drop_first()[q - 1]);
                                assert(cur_view[q] == bucket_view(pre.index@[q]));
                            }
                        }
                    }
                    assert(cur.removed =~= goneset) by {
                        assert(cur_view[0].1.skip(m - budget as int) =~= gone);
                    }
                    removed_ghost = removed_ghost.union(goneset);
                    assert(full.removed =~= removed_ghost);
                    assert forall|x: Seq<u8>| #[trigger]
                        removed_ghost.contains(x) implies entries_has(orig_es, x) && entry_of(
                        orig_es,
                        x,
                    ).height <= now by {
                        if goneset.contains(x) {
                            assert(entries_has(es_before, x));
                            assert(entries_has(orig_es, x));
                            assert(entry_of(es_before, x) == entry_of(orig_es, x));
                        }
                    }
                    assert forall|x: Seq<u8>|
                        #[trigger] entries_has(self.entries@, x) <==> entries_has(orig_es, x)
                            && !removed_ghost.contains(x) by {
                        assert(entries_has(self.entries@, x) <==> entries_has(es_before, x)
                            && !goneset.contains(x));
                    }
                    assert(index_view(self.index@) == full.index) by {
                        assert(cur.index == full.index);
                    }
                }
                budget = 0;
                proof {
                    assert(spec_prune(index_view(self.index@), now, 0).index == index_view(
                        self.index@,
                    ));
                }
                break;
            }
        }
    }

    /// Answers, without mutating anything, whether a pruning pass with the
    /// given cap would remove the given id right now.
    #[verifier::loop_isolation(false)]
    pub fn would_remove(&self, id: &OpId, now: u64, cap: u32) -> (r: bool)
        requires
            self.wf(),
        ensures
            r == spec_prune(index_view(self.index@), now, cap as nat).removed.contains(id@),
    {
        let ghost orig_view = index_view(self.index@);
        let ghost full = spec_prune(orig_view, now, cap as nat);
        let mut p: usize = 0;
        let mut budget: u32 = cap;
        proof {
            assert(orig_view.skip(0) =~= orig_view);
        }
        loop
            invariant
                self.wf(),
                p <= self.index@.len(),
                orig_view == index_view(self.index@),
                full.removed.contains(id@) == spec_prune(
                    orig_view.skip(p as int),
                    now,
                    budget as nat,
                ).removed.contains(id@),
            decreases self.index@.len() - p,
        {
            let ghost rem_view = orig_view.skip(p as int);
            let ghost step = spec_prune(rem_view, now, budget as nat);
            if budget == 0 {
                proof {
                    assert(!step.removed.contains(id@));
                }
                return false;
            }
            if p == self.index.len() {
                proof {
                    assert(rem_view.len() == 0);
                    assert(!step.removed.contains(id@));
                }
                return false;
            }
            proof {
                assert(rem_view[0] == bucket_view(self.index@[p as int]));
            }
            if self.index[p].height > now {
                proof {
                    assert(rem_view[0].0 > now);
                    assert(!step.removed.contains(id@));
                }
                return false;
            }
            let m = self.index[p].ids.len();
            if m <= budget as usize {
                let mut j: usize = 0;
                while j < m
                    invariant
                        p < self.index@.len(),
                        m == self.index@[p as int].ids@.len(),
                        j <= m,
                        forall|q: int| 0 <= q < j ==> self.index@[p as int].ids@[q]@ != id@,
                    decreases m - j,
                {
                    if op_id_eq(&self.index[p].ids[j], id) {
                        proof {
                            assert(rem_view[0].1[j as int] == id@);
                            assert(rem_view[0].1.to_set().contains(id@));
                            assert(step.removed.contains(id@));
                        }
                        return true;
                    }
                    j += 1;
                }
                proof {
                    assert(!rem_view[0].1.to_set().contains(id@)) by {
                        if rem_view[0].1.contains(id@) {
                            let q = choose|q: int|
                                0 <= q < rem_view[0].1.len() && rem_view[0].1[q] == id@;
                            assert(self.index@[p as int].ids@[q]@ == id@);
                        }
                    }
                    assert(rem_view.drop_first() =~= orig_view.skip(p as int + 1));
                    assert(step.removed == spec_prune(
                        rem_view.drop_first(),
                        now,
                        (budget - m) as nat,
                    ).removed.union(rem_view[0].1.to_set()));
                }
                budget = budget - m as u32;
                p += 1;
            } else {
                let start = m - budget as usize;
                let mut j: usize = start;
                while j < m
                    invariant
                        p < self.index@.len(),
                        m == self.index@[p as int].ids@.len(),
                        start <= j <= m,
                        forall|q: int| start <= q < j ==> self.index@[p as int].ids@[q]@ != id@,
                    decreases m - j,
                {
                    if op_id_eq(&self.index[p].ids[j], id) {
                        proof {
                            assert(rem_view[0].1.skip(start as int)[j - start] == rem_view[0].1[
                                j as int]);
                            assert(rem_view[0].1[j as int] == id@);
                            assert(step.removed.contains(id@));
                        }
                        return true;
                    }
                    j += 1;
                }
                proof {
                    assert(step.removed == rem_view[0].1.skip(
                        rem_view[0].1.len() - budget,
                    ).to_set());
                    assert(!step.removed.contains(id@)) by {
                        if rem_view[0].1.skip(start as int).contains(id@) {
                            let q = choose|q: int|
                                0 <= q < rem_view[0].1.skip(start as int).len() && rem_view[0].1.skip(
                                    start as int,
                                )[q] == id@;
                            assert(rem_view[0].1.skip(start as int)[q] == rem_view[0].1[q
                                + start]);
                            assert(self.index@[p as int].ids@[q + start]@ == id@);
                        }
                    }
                }
                return false;
            }
        }
    }

    /// An entry that is not yet due survives any pruning pass: only ids
    /// indexed at heights up to `now` can be removed.
    pub proof fn lemma_undue_survives(&self, id: Seq<u8>, now: u64, cap: u32)
        requires
            self.wf(),
            self.has(id),
            now < self.height_of(id),
        ensures
            !spec_prune(index_view(self.index@), now, cap as nat).removed.contains(id),
    {
        let k = choose|k: int| 0 <= k < self.entries@.len() && self.entries@[k].id@ == id;
        lemma_entry_index_unique(self.entries@, id, k);
        let h = self.entries@[k].height;
        if spec_prune(index_view(self.index@), now, cap as nat).removed.contains(id) {
            lemma_spec_prune_removed_due(index_view(self.index@), now, cap as nat);
            let i = choose|i: int|
                0 <= i < index_view(self.index@).len() && index_view(self.index@)[i].0 <= now
                    && index_view(self.index@)[i].1.contains(id);
            let j = choose|j: int|
                0 <= j < index_view(self.index@)[i].1.len() && index_view(self.index@)[i].1[j]
                    == id;
            assert(self.index@[i].ids@[j]@ == id);
            assert(bucket_has(self.index@[i], id));
            assert(entries_has_at(self.entries@, id, self.index@[i].height));
            let k2 = choose|k2: int|
                0 <= k2 < self.entries@.len() && self.entries@[k2].id@ == id
                    && self.entries@[k2].height == self.index@[i].height;
            lemma_entry_index_unique(self.entries@, id, k2);
            assert(self.index@[i].height == h);
            assert(h <= now);
        }
    }

    /// Removes every entry and empties the index, returning the removed
    /// ids in entry order.
    pub fn clear(&mut self) -> (ids: Vec<OpId>)
        requires
            old(self).wf(),
        ensures
            final(self).wf(),
            final(self).entries@.len() == 0,
            final(self).index@.len() == 0,
            ids@.len() == old(self).entries@.len(),
            forall|i: int| 0 <= i < ids@.len() ==> ids@[i]@ == old(self).entries@[i].id@,
    {
        let mut ids: Vec<OpId> = Vec::new();
        let mut i: usize = 0;
        while i < self.entries.len()
            invariant
                i <= self.entries@.len(),
                ids@.len() == i,
                forall|k: int| 0 <= k < i ==> ids@[k]@ == self.entries@[k].id@,
            decreases self.entries@.len() - i,
        {
            ids.push(self.entries[i].id);
            i += 1;
        }
        self.entries = Vec::new();
        self.index = Vec::new();
        ids
    }
}

} // verus!
