use crate::layout::Paint;
use crate::maths::Scalar;
use std::collections::BTreeMap;
use vstd::prelude::*;
use vstd::std_specs::btree::axiom_increasing_seq_meaning;
use vstd::std_specs::btree::increasing_seq;
use vstd::std_specs::cmp::OrdSpec;
use vstd::std_specs::iter::IteratorSpec;

verus! {

/// The buckets of one kind of record as plain values: under each key (a
/// layer, or the width of a stroke) the records that were drawn under it, in
/// the order in which they were drawn.
pub open spec fn view_of<T>(buckets: Map<u32, Vec<T>>) -> Map<u32, Seq<T>> {
    buckets.map_values(|records: Vec<T>| records@)
}

/// Whether there is a bucket for `key`.
pub open spec fn has_bucket<T>(buckets: Map<u32, Seq<T>>, key: u32) -> bool {
    buckets.contains_key(key)
}

/// The records drawn under `key`: none where it has no bucket.
pub open spec fn records_of<T>(buckets: Map<u32, Seq<T>>, key: u32) -> Seq<T> {
    if buckets.contains_key(key) {
        buckets[key]
    } else {
        Seq::empty()
    }
}

/// The buckets after `added` was drawn under `key`: the records go to the end
/// of the key's bucket, which is made where there was none.
pub open spec fn appended<T>(buckets: Map<u32, Seq<T>>, key: u32, added: Seq<T>) -> Map<
    u32,
    Seq<T>,
> {
    buckets.insert(key, records_of(buckets, key) + added)
}

/// The buckets with the records of the bucket of `key` replaced by `records`.
pub open spec fn replaced<T>(buckets: Map<u32, Seq<T>>, key: u32, records: Seq<T>) -> Map<
    u32,
    Seq<T>,
> {
    buckets.insert(key, records)
}

/// Whether every record of every bucket is `good`.
pub open spec fn every<T>(buckets: Map<u32, Seq<T>>, good: spec_fn(T) -> bool) -> bool {
    forall|key: u32, j: int|
        buckets.contains_key(key) && 0 <= j < buckets[key].len() ==> good(
            #[trigger] buckets[key][j],
        )
}

/// The buckets with every record replaced by what `f` makes of it.
pub open spec fn mapped<T, U>(buckets: Map<u32, Seq<T>>, f: spec_fn(T) -> U) -> Map<u32, Seq<U>> {
    buckets.map_values(|records: Seq<T>| records.map_values(f))
}

/// Whether `keys` lists the keys of the buckets, each once, from the
/// smallest to the largest.
pub open spec fn in_order<T>(keys: Seq<u32>, buckets: Map<u32, Seq<T>>) -> bool {
    &&& forall|i: int, j: int| 0 <= i < j < keys.len() ==> keys[i] < keys[j]
    &&& forall|i: int| 0 <= i < keys.len() ==> buckets.contains_key(#[trigger] keys[i])
    &&& forall|key: u32|
        buckets.contains_key(key) ==> exists|i: int| 0 <= i < keys.len() && #[trigger] keys[i] == key
}

/// The records with the color of `count` of them, from `start` on, replaced.
pub open spec fn recolored<T: Paint>(
    records: Seq<T>,
    start: int,
    count: int,
    r: Scalar,
    g: Scalar,
    b: Scalar,
    a: Scalar,
) -> Seq<T> {
    Seq::new(
        records.len(),
        |i: int|
            if start <= i < start + count {
                records[i].painted(r, g, b, a)
            } else {
                records[i]
            },
    )
}

/// Without buckets there are no records under any key.
pub proof fn lemma_no_buckets<T>(key: u32)
    ensures
        !has_bucket(Map::<u32, Seq<T>>::empty(), key),
        records_of(Map::<u32, Seq<T>>::empty(), key) == Seq::<T>::empty(),
{
}

/// Drawing under a key puts the new records behind those that the key had and
/// leaves the records of every other key as they were: a bucket only grows.
pub proof fn lemma_appended<T>(buckets: Map<u32, Seq<T>>, key: u32, added: Seq<T>)
    ensures
        has_bucket(appended(buckets, key, added), key),
        records_of(appended(buckets, key, added), key) == records_of(buckets, key) + added,
        forall|other: u32|
            other != key ==> #[trigger] has_bucket(appended(buckets, key, added), other)
                == has_bucket(buckets, other),
        forall|other: u32|
            other != key ==> #[trigger] records_of(appended(buckets, key, added), other)
                == records_of(buckets, other),
{
}

/// Replacing the records of a key leaves the records of every other key as
/// they were.
pub proof fn lemma_replaced<T>(buckets: Map<u32, Seq<T>>, key: u32, records: Seq<T>)
    requires
        has_bucket(buckets, key),
    ensures
        forall|other: u32|
            #[trigger] has_bucket(replaced(buckets, key, records), other) == has_bucket(
                buckets,
                other,
            ),
        records_of(replaced(buckets, key, records), key) == records,
        forall|other: u32|
            other != key ==> #[trigger] records_of(replaced(buckets, key, records), other)
                == records_of(buckets, other),
{
}

/// Drawing good records keeps all records good.
pub proof fn lemma_every_appended<T>(
    buckets: Map<u32, Seq<T>>,
    key: u32,
    added: Seq<T>,
    good: spec_fn(T) -> bool,
)
    requires
        every(buckets, good),
        forall|j: int| 0 <= j < added.len() ==> good(#[trigger] added[j]),
    ensures
        every(appended(buckets, key, added), good),
{
    let after = appended(buckets, key, added);
    assert forall|k: u32, j: int| after.contains_key(k) && 0 <= j < after[k].len() implies good(
        #[trigger] after[k][j],
    ) by {
        if k == key {
            let had = records_of(buckets, key);
            if j < had.len() {
                assert(good(buckets[key][j]));
            } else {
                assert(good(added[j - had.len()]));
            }
        } else {
            assert(good(buckets[k][j]));
        }
    }
}

/// Replacing the records of a bucket by good records keeps all records good.
pub proof fn lemma_every_replaced<T>(
    buckets: Map<u32, Seq<T>>,
    key: u32,
    records: Seq<T>,
    good: spec_fn(T) -> bool,
)
    requires
        every(buckets, good),
        forall|j: int| 0 <= j < records.len() ==> good(#[trigger] records[j]),
    ensures
        every(replaced(buckets, key, records), good),
{
    let after = replaced(buckets, key, records);
    assert forall|k: u32, j: int| after.contains_key(k) && 0 <= j < after[k].len() implies good(
        #[trigger] after[k][j],
    ) by {
        if k == key {
            assert(good(records[j]));
        } else {
            assert(good(buckets[k][j]));
        }
    }
}

/// What is drawn under a key can be replaced before or after it goes to its
/// bucket.
pub proof fn lemma_mapped<T, U>(buckets: Map<u32, Seq<T>>, f: spec_fn(T) -> U, key: u32, added: Seq<T>)
    ensures
        has_bucket(mapped(buckets, f), key) == has_bucket(buckets, key),
        records_of(mapped(buckets, f), key) == records_of(buckets, key).map_values(f),
        mapped(appended(buckets, key, added), f) == appended(
            mapped(buckets, f),
            key,
            added.map_values(f),
        ),
{
    assert(Seq::<T>::empty().map_values(f) =~= Seq::<U>::empty());
    assert((records_of(buckets, key) + added).map_values(f) =~= records_of(buckets, key).map_values(
        f,
    ) + added.map_values(f));
    assert(mapped(appended(buckets, key, added), f) =~= appended(
        mapped(buckets, f),
        key,
        added.map_values(f),
    ));
}

/// Draws `records` under `key` and says where the first of them went: its
/// place among the records of the key's bucket. Where the key had no bucket
/// one is made.
pub fn push_records<T>(buckets: &mut BTreeMap<u32, Vec<T>>, key: u32, records: Vec<T>) -> (start:
    usize)
    ensures
        view_of(final(buckets)@) == appended(view_of(old(buckets)@), key, records@),
        has_bucket(view_of(final(buckets)@), key),
        start == records_of(view_of(old(buckets)@), key).len(),
        records_of(view_of(final(buckets)@), key) == records_of(view_of(old(buckets)@), key)
            + records@,
{
    let ghost before = view_of(buckets@);
    let mut list = match buckets.remove(&key) {
        Some(list) => list,
        None => Vec::new(),
    };
    assert(list@ == records_of(before, key));
    let start = list.len();
    let ghost added = records@;
    let mut rest = records;
    list.append(&mut rest);
    buckets.insert(key, list);
    assert(view_of(buckets@) =~= appended(before, key, added));
    start
}

/// Gives `count` records of the bucket of `key`, from `start` on, a color,
/// and leaves every other record as it was.
pub fn paint_records<T: Paint>(
    buckets: &mut BTreeMap<u32, Vec<T>>,
    key: u32,
    start: usize,
    count: usize,
    r: Scalar,
    g: Scalar,
    b: Scalar,
    a: Scalar,
)
    requires
        has_bucket(view_of(old(buckets)@), key),
        start + count <= records_of(view_of(old(buckets)@), key).len(),
    ensures
        view_of(final(buckets)@) == replaced(
            view_of(old(buckets)@),
            key,
            recolored(
                records_of(view_of(old(buckets)@), key),
                start as int,
                count as int,
                r,
                g,
                b,
                a,
            ),
        ),
{
    let ghost before = view_of(buckets@);
    let ghost records = records_of(before, key);
    let mut list = match buckets.remove(&key) {
        Some(list) => list,
        None => Vec::new(),
    };
    assert(list@ == records);
    let held = list.len();
    assert(start + count <= held);
    let end = start + count;
    let mut i: usize = start;
    assert(list@ =~= recolored(records, start as int, 0, r, g, b, a));
    while i < end
        invariant
            start <= i <= end,
            end == start + count,
            end <= records.len(),
            list@ == recolored(records, start as int, i - start, r, g, b, a),
        decreases end - i,
    {
        let record = list[i];
        list.set(i, record.paint(r, g, b, a));
        assert(list@ =~= recolored(records, start as int, i + 1 - start, r, g, b, a));
        i = i + 1;
    }
    buckets.insert(key, list);
    assert(view_of(buckets@) =~= replaced(
        before,
        key,
        recolored(records, start as int, count as int, r, g, b, a),
    ));
}

/// One record of the bucket of `key`.
pub fn record_at<T: Copy>(buckets: &BTreeMap<u32, Vec<T>>, key: u32, at: usize) -> (record: Option<
    T,
>)
    ensures
        has_bucket(view_of(buckets@), key) && at < records_of(view_of(buckets@), key).len()
            ==> record == Some(records_of(view_of(buckets@), key)[at as int]),
        !(has_bucket(view_of(buckets@), key) && at < records_of(view_of(buckets@), key).len())
            ==> record is None,
{
    match buckets.get(&key) {
        Some(list) => {
            if at < list.len() {
                Some(list[at])
            } else {
                None
            }
        },
        None => None,
    }
}

/// The keys of the buckets, from the smallest to the largest.
pub fn ordered_keys<T>(buckets: &BTreeMap<u32, Vec<T>>) -> (keys: Vec<u32>)
    ensures
        in_order(keys@, view_of(buckets@)),
{
    let mut keys: Vec<u32> = Vec::new();
    let iter = buckets.keys();
    let ghost all = iter.remaining();
    for key in it: iter
        invariant
            it.seq() == all,
            increasing_seq(all),
            keys@.len() == it.index(),
            forall|i: int| 0 <= i < keys@.len() ==> keys@[i] == *all[i],
    {
        keys.push(*key);
    }
    proof {
        assert(keys@ =~= all.unref());
        axiom_increasing_seq_meaning::<&u32>(all);
        assert forall|i: int, j: int| 0 <= i < j < keys@.len() implies keys@[i] < keys@[j] by {
            assert((&all[i]).cmp_spec(&all[j]) is Less);
            assert(keys@[i] == *all[i]);
            assert(keys@[j] == *all[j]);
        }
        assert forall|i: int| 0 <= i < keys@.len() implies view_of(buckets@).contains_key(
            #[trigger] keys@[i],
        ) by {
            assert(keys@.to_set().contains(keys@[i]));
        }
        assert forall|key: u32| view_of(buckets@).contains_key(key) implies exists|i: int|
            0 <= i < keys@.len() && #[trigger] keys@[i] == key by {
            assert(keys@.to_set().contains(key));
        }
    }
    keys
}

/// Takes the buckets apart: the key and the records of each, the keys from
/// the smallest to the largest.
pub fn drain<T>(buckets: BTreeMap<u32, Vec<T>>) -> (listed: Vec<(u32, Vec<T>)>)
    ensures
        in_order(listed@.map_values(|bucket: (u32, Vec<T>)| bucket.0), view_of(buckets@)),
        forall|i: int|
            0 <= i < listed@.len() ==> (#[trigger] listed@[i]).1@ == view_of(
                buckets@,
            )[listed@[i].0],
{
    let keys = ordered_keys(&buckets);
    let ghost start = view_of(buckets@);
    let mut rest = buckets;
    let mut listed: Vec<(u32, Vec<T>)> = Vec::new();
    let mut i: usize = 0;
    while i < keys.len()
        invariant
            i <= keys@.len(),
            listed@.len() == i,
            in_order(keys@, start),
            forall|k: int|
                i <= k < keys@.len() ==> rest@.contains_key(#[trigger] keys@[k]) && rest@[keys@[k]]@
                    == start[keys@[k]],
            forall|k: int|
                0 <= k < i ==> (#[trigger] listed@[k]).0 == keys@[k] && listed@[k].1@
                    == start[keys@[k]],
        decreases keys@.len() - i,
    {
        let key = keys[i];
        let list = match rest.remove(&key) {
            Some(list) => list,
            None => Vec::new(),
        };
        listed.push((key, list));
        i = i + 1;
    }
    assert(listed@.map_values(|bucket: (u32, Vec<T>)| bucket.0) =~= keys@);
    listed
}

/// Whether `key` has a bucket with at least `start + count` records.
pub fn holds_records<T>(buckets: &BTreeMap<u32, Vec<T>>, key: u32, start: usize, count: usize) -> (r:
    bool)
    ensures
        r == (has_bucket(view_of(buckets@), key) && start + count <= records_of(
            view_of(buckets@),
            key,
        ).len()),
{
    match buckets.get(&key) {
        Some(list) => start <= list.len() && count <= list.len() - start,
        None => false,
    }
}

/// Whether every record of every bucket passes `test`, where `test` tells
/// whether a record is `good`.
pub(crate) fn every_passes<T, F: Fn(&T) -> bool>(
    buckets: &BTreeMap<u32, Vec<T>>,
    test: F,
    Ghost(good): Ghost<spec_fn(T) -> bool>,
) -> (r: bool)
    requires
        forall|record: &T| test.requires((record,)),
        forall|record: &T, passed: bool| test.ensures((record,), passed) ==> passed == good(*record),
    ensures
        r == every(view_of(buckets@), good),
{
    let keys = ordered_keys(buckets);
    let ghost all = view_of(buckets@);
    let mut i: usize = 0;
    while i < keys.len()
        invariant
            i <= keys@.len(),
            all == view_of(buckets@),
            in_order(keys@, all),
            forall|record: &T| test.requires((record,)),
            forall|record: &T, passed: bool|
                test.ensures((record,), passed) ==> passed == good(*record),
            forall|k: int, j: int|
                0 <= k < i && 0 <= j < all[keys@[k]].len() ==> good(#[trigger] all[keys@[k]][j]),
        decreases keys@.len() - i,
    {
        let key = keys[i];
        match buckets.get(&key) {
            Some(list) => {
                let mut j: usize = 0;
                while j < list.len()
                    invariant
                        j <= list@.len(),
                        all == view_of(buckets@),
                        all.contains_key(key),
                        list@ == all[key],
                        forall|record: &T| test.requires((record,)),
                        forall|record: &T, passed: bool|
                            test.ensures((record,), passed) ==> passed == good(*record),
                        forall|n: int| 0 <= n < j ==> good(#[trigger] list@[n]),
                    decreases list@.len() - j,
                {
                    if !test(&list[j]) {
                        assert(!good(all[key][j as int]));
                        return false;
                    }
                    j = j + 1;
                }
            },
            None => {},
        }
        i = i + 1;
    }
    proof {
        assert forall|key: u32, j: int| all.contains_key(key) && 0 <= j < all[key].len() implies good(
            #[trigger] all[key][j],
        ) by {
            let k = choose|k: int| 0 <= k < keys@.len() && keys@[k] == key;
            assert(good(all[keys@[k]][j]));
        }
    }
    true
}

} // verus!
