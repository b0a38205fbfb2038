use crate::layout::lemma_split;
use crate::tools::LayoutHash;
use vstd::pervasive::unreached;
use vstd::prelude::*;

verus! {

/// The number of resources that a cache keeps.
pub const CAPACITY: usize = 128;

/// `lru::LruCache`, a map that forgets the entry that was used least recently
/// when it is full.
#[verifier::external_type_specification]
#[verifier::external_body]
#[verifier::reject_recursive_types(K)]
#[verifier::reject_recursive_types(V)]
#[verifier::reject_recursive_types(S)]
pub struct ExLruCache<K, V, S>(lru::LruCache<K, V, S>);

/// `lru::DefaultHasher`, the hasher of an `LruCache` that was given none.
#[verifier::external_type_specification]
#[verifier::external_body]
pub struct ExLruHasher(lru::DefaultHasher);

/// What an `LruCache` holds: its entries, key and value, from the one that
/// was used last to the one that was used least recently.
pub uninterp spec fn lru_entries(cache: lru::LruCache<u64, usize>) -> Seq<(u64, usize)>;

/// The number of entries that an `LruCache` was made for.
pub uninterp spec fn lru_limit(cache: lru::LruCache<u64, usize>) -> nat;

/// What `seahash::hash` returns for a buffer of these bytes.
pub uninterp spec fn sea_hash(bytes: Seq<u8>) -> u64;

/// Whether one of the entries has this key.
pub open spec fn caches<V>(entries: Seq<(u64, V)>, key: u64) -> bool {
    exists|i: int| 0 <= i < entries.len() && (#[trigger] entries[i]).0 == key
}

/// The place of the entry with this key.
pub open spec fn place_of<V>(entries: Seq<(u64, V)>, key: u64) -> int {
    choose|i: int| 0 <= i < entries.len() && (#[trigger] entries[i]).0 == key
}

/// The entries after the one with this key was used: it comes first, the
/// others keep their order.
pub open spec fn touched<V>(entries: Seq<(u64, V)>, key: u64) -> Seq<(u64, V)> {
    let at = place_of(entries, key);
    seq![entries[at]] + entries.remove(at)
}

/// The entries after a new one was put in: it comes first, and where there
/// were `limit` entries already the last of them, the one used least
/// recently, is gone.
pub open spec fn inserted<V>(entries: Seq<(u64, V)>, entry: (u64, V), limit: nat) -> Seq<(u64, V)> {
    if entries.len() == limit && limit > 0 {
        seq![entry] + entries.drop_last()
    } else {
        seq![entry] + entries
    }
}

/// Whether no key occurs twice.
pub open spec fn distinct_keys<V>(entries: Seq<(u64, V)>) -> bool {
    forall|i: int, j: int|
        0 <= i < j < entries.len() ==> (#[trigger] entries[i]).0 != (#[trigger] entries[j]).0
}

/// `LruCache::new` with a capacity of `cap`: an empty cache made for `cap`
/// entries.
#[verifier::external_body]
fn lru_new(cap: usize) -> (cache: lru::LruCache<u64, usize>)
    requires
        cap > 0,
    ensures
        lru_entries(cache) == Seq::<(u64, usize)>::empty(),
        lru_limit(cache) == cap,
{
    lru::LruCache::new(std::num::NonZeroUsize::new(cap).unwrap())
}

/// `LruCache::get`: the value under `key`, whose entry then counts as the one
/// used last, or `None` where the cache has no such entry and stays as it is.
#[verifier::external_body]
fn lru_get(cache: &mut lru::LruCache<u64, usize>, key: u64) -> (value: Option<usize>)
    ensures
        lru_limit(*final(cache)) == lru_limit(*old(cache)),
        caches(lru_entries(*old(cache)), key) ==> value == Some(
            lru_entries(*old(cache))[place_of(lru_entries(*old(cache)), key)].1,
        ) && lru_entries(*final(cache)) == touched(lru_entries(*old(cache)), key),
        !caches(lru_entries(*old(cache)), key) ==> value is None && lru_entries(*final(cache))
            == lru_entries(*old(cache)),
{
    cache.get(&key).copied()
}

/// `LruCache::peek_lru`: the entry that was used least recently, or `None`
/// where the cache is empty. The cache stays as it is.
#[verifier::external_body]
fn lru_peek_lru(cache: &lru::LruCache<u64, usize>) -> (entry: Option<(u64, usize)>)
    ensures
        lru_entries(*cache).len() == 0 ==> entry is None,
        lru_entries(*cache).len() > 0 ==> entry == Some(lru_entries(*cache).last()),
{
    cache.peek_lru().map(|entry| (*entry.0, *entry.1))
}

/// `LruCache::put` of a key that the cache does not hold: the new entry counts
/// as the one used last, and where the cache was full the entry that was used
/// least recently is gone.
#[verifier::external_body]
fn lru_put(cache: &mut lru::LruCache<u64, usize>, key: u64, value: usize)
    requires
        !caches(lru_entries(*old(cache)), key),
        lru_limit(*old(cache)) > 0,
    ensures
        lru_limit(*final(cache)) == lru_limit(*old(cache)),
        lru_entries(*final(cache)) == inserted(
            lru_entries(*old(cache)),
            (key, value),
            lru_limit(*old(cache)),
        ),
{
    cache.put(key, value);
}

/// `seahash::hash` of a buffer: a number that depends on the bytes alone.
#[verifier::external_body]
fn sea(bytes: &Vec<u8>) -> (hash: u64)
    ensures
        hash == sea_hash(bytes@),
{
    seahash::hash(bytes.as_slice())
}

/// The bytes of a batch of records: those of each record, in order.
pub open spec fn batch_bytes<L: LayoutHash>(layout: Seq<L>) -> Seq<u8>
    decreases layout.len(),
{
    if layout.len() == 0 {
        Seq::empty()
    } else {
        batch_bytes(layout.drop_last()) + layout.last().hash_bytes()
    }
}

/// The content hash of a batch of records: the hash of its bytes.
pub open spec fn content_hash<L: LayoutHash>(layout: Seq<L>) -> u64 {
    sea_hash(batch_bytes(layout))
}

/// A batch has as many bytes as it has records, times the bytes of one.
pub proof fn lemma_batch_len<L: LayoutHash>(layout: Seq<L>)
    ensures
        batch_bytes(layout).len() == layout.len() * L::hash_len(),
    decreases layout.len(),
{
    if layout.len() > 0 {
        lemma_batch_len(layout.drop_last());
        layout.last().lemma_hash_bytes(&layout.last());
        assert((layout.len() - 1) * L::hash_len() + L::hash_len() == layout.len() * L::hash_len())
            by (nonlinear_arith);
    }
}

/// Two batches have the same bytes only if they hold the same records in the
/// same order: a batch that differs from another in one number of one record
/// has other bytes.
pub proof fn lemma_batch_bytes<L: LayoutHash>(a: Seq<L>, b: Seq<L>)
    requires
        L::hash_len() > 0,
        batch_bytes(a) == batch_bytes(b),
    ensures
        a == b,
    decreases a.len(),
{
    lemma_batch_len(a);
    lemma_batch_len(b);
    assert(a.len() == b.len()) by (nonlinear_arith)
        requires
            a.len() * L::hash_len() == b.len() * L::hash_len(),
            L::hash_len() > 0,
    ;
    if a.len() == 0 {
        assert(a =~= b);
    } else {
        lemma_batch_len(a.drop_last());
        lemma_batch_len(b.drop_last());
        lemma_split(
            batch_bytes(a.drop_last()),
            a.last().hash_bytes(),
            batch_bytes(b.drop_last()),
            b.last().hash_bytes(),
        );
        lemma_batch_bytes(a.drop_last(), b.drop_last());
        a.last().lemma_hash_bytes(&b.last());
        assert(a =~= a.drop_last().push(a.last()));
        assert(b =~= b.drop_last().push(b.last()));
    }
}

/// What was looked up is held afterwards, first of all entries: a second
/// lookup of the same hash finds what the first returned, and builds nothing.
/// A lookup that found its hash forgets nothing.
pub proof fn lemma_lookup_keeps<V>(entries: Seq<(u64, V)>, key: u64, value: V, limit: nat)
    requires
        distinct_keys(entries),
        limit > 0,
    ensures
        caches(entries, key) ==> {
            let after = touched(entries, key);
            &&& distinct_keys(after)
            &&& after.len() == entries.len()
            &&& caches(after, key)
            &&& place_of(after, key) == 0
            &&& after[0] == entries[place_of(entries, key)]
            &&& forall|other: u64| caches(entries, other) ==> caches(after, other)
        },
        !caches(entries, key) ==> {
            let after = inserted(entries, (key, value), limit);
            &&& distinct_keys(after)
            &&& caches(after, key)
            &&& place_of(after, key) == 0
            &&& after[0] == (key, value)
        },
{
    if caches(entries, key) {
        let at = place_of(entries, key);
        let after = touched(entries, key);
        assert forall|i: int| 0 <= i < after.len() implies #[trigger] after[i] == entries[if i
            == 0 {
            at
        } else if i <= at {
            i - 1
        } else {
            i
        }] by {}
        assert forall|i: int, j: int| 0 <= i < j < after.len() implies (#[trigger] after[i]).0 != (
        #[trigger] after[j]).0 by {
            let a: int = if i == 0 {
                at
            } else if i <= at {
                i - 1
            } else {
                i
            };
            let b: int = if j <= at {
                j - 1
            } else {
                j
            };
            assert(after[i] == entries[a]);
            assert(after[j] == entries[b]);
            if a < b {
                assert(entries[a].0 != entries[b].0);
            } else {
                assert(entries[b].0 != entries[a].0);
            }
        }
        assert(after[0].0 == key);
        let first = place_of(after, key);
        if first != 0 {
            assert(after[0].0 != after[first].0);
        }
        assert forall|other: u64| caches(entries, other) implies caches(after, other) by {
            let o = place_of(entries, other);
            let to: int = if o == at {
                0
            } else if o < at {
                o + 1
            } else {
                o
            };
            assert(after[to] == entries[o]);
        }
    } else {
        let after = inserted(entries, (key, value), limit);
        assert(after[0] == (key, value));
        assert forall|i: int, j: int| 0 <= i < j < after.len() implies (#[trigger] after[i]).0 != (
        #[trigger] after[j]).0 by {
            assert(after[j] == entries[j - 1]);
            if i == 0 {
                assert(entries[j - 1].0 != key);
            } else {
                assert(after[i] == entries[i - 1]);
                assert(entries[i - 1].0 != entries[j - 1].0);
            }
        }
        let first = place_of(after, key);
        if first != 0 {
            assert(after[0].0 != after[first].0);
        }
    }
}

/// A full cache that takes one more entry forgets exactly the entry that was
/// used least recently: its hash is no longer held, every other is, with the
/// resource that it had.
pub proof fn lemma_full_cache_forgets_one<V>(entries: Seq<(u64, V)>, key: u64, value: V, limit: nat)
    requires
        distinct_keys(entries),
        limit > 0,
        entries.len() == limit,
        !caches(entries, key),
    ensures
        inserted(entries, (key, value), limit).len() == limit,
        !caches(inserted(entries, (key, value), limit), entries.last().0),
        forall|other: u64|
            caches(entries, other) && other != entries.last().0 ==> #[trigger] caches(
                inserted(entries, (key, value), limit),
                other,
            ) && inserted(entries, (key, value), limit)[place_of(
                inserted(entries, (key, value), limit),
                other,
            )].1 == entries[place_of(entries, other)].1,
{
    let after = inserted(entries, (key, value), limit);
    lemma_lookup_keeps(entries, key, value, limit);
    let last = entries.last().0;
    assert(entries[entries.len() - 1].0 == last);
    assert(caches(entries, last));
    if caches(after, last) {
        let i = place_of(after, last);
        if i == 0 {
            assert(last == key);
        } else {
            assert(after[i] == entries[i - 1]);
            assert(entries[i - 1].0 != entries[entries.len() - 1].0);
        }
    }
    assert forall|other: u64| caches(entries, other) && other != last implies #[trigger] caches(
        after,
        other,
    ) && after[place_of(after, other)].1 == entries[place_of(entries, other)].1 by {
        let o = place_of(entries, other);
        assert(after[o + 1] == entries[o]);
        let found = place_of(after, other);
        if found < o + 1 {
            assert(after[found].0 != after[o + 1].0);
        }
        if o + 1 < found {
            assert(after[o + 1].0 != after[found].0);
        }
    }
}

/// The content hash of a batch of records: every number of every record goes
/// into it, in order.
pub fn do_hash<L: LayoutHash>(layout: &[L]) -> (hash: u64)
    ensures
        hash == content_hash(layout@),
{
    let mut bytes: Vec<u8> = Vec::new();
    let mut i: usize = 0;
    while i < layout.len()
        invariant
            i <= layout@.len(),
            bytes@ == batch_bytes(layout@.take(i as int)),
        decreases layout@.len() - i,
    {
        layout[i].hash(&mut bytes);
        assert(layout@.take(i as int + 1).drop_last() =~= layout@.take(i as int));
        i = i + 1;
    }
    assert(layout@.take(i as int) =~= layout@);
    sea(&bytes)
}

/// Keeps what was built from a batch of records under the batch's content
/// hash, so that a batch that is drawn again the same is not built again. It
/// keeps up to `CAPACITY` resources and forgets the one used least recently
/// when it takes one more.
///
/// Two batches with the same content hash are taken for the same batch: the
/// records themselves are not compared.
pub struct VbCache<T> {
    cache: lru::LruCache<u64, usize>,
    slots: Vec<T>,
}

impl<T> VbCache<T> {
    /// What the cache holds: content hash and resource, from the entry that
    /// was used last to the one that was used least recently.
    pub closed spec fn entries(&self) -> Seq<(u64, T)> {
        Seq::new(
            lru_entries(self.cache).len(),
            |i: int| (lru_entries(self.cache)[i].0, self.slots@[lru_entries(self.cache)[i].1 as int]),
        )
    }

    /// Each entry of the index has a slot of its own, and each slot an entry.
    closed spec fn indexed(&self) -> bool {
        let index = lru_entries(self.cache);
        &&& index.len() == self.slots@.len()
        &&& lru_limit(self.cache) == CAPACITY
        &&& forall|i: int| 0 <= i < index.len() ==> (#[trigger] index[i]).1 < self.slots@.len()
        &&& forall|i: int, j: int|
            0 <= i < j < index.len() ==> (#[trigger] index[i]).1 != (#[trigger] index[j]).1
    }

    /// What holds of every cache: no hash occurs twice, and there are at most
    /// `CAPACITY` entries.
    pub closed spec fn wf(&self) -> bool {
        &&& self.indexed()
        &&& distinct_keys(lru_entries(self.cache))
        &&& lru_entries(self.cache).len() <= CAPACITY
    }

    /// A well formed cache holds no hash twice and at most `CAPACITY` entries.
    pub proof fn lemma_wf(&self)
        requires
            self.wf(),
        ensures
            distinct_keys(self.entries()),
            self.entries().len() <= CAPACITY,
    {
        let index = lru_entries(self.cache);
        assert forall|i: int, j: int| 0 <= i < j < self.entries().len() implies (
        #[trigger] self.entries()[i]).0 != (#[trigger] self.entries()[j]).0 by {
            assert(index[i].0 != index[j].0);
        }
    }

    /// An empty cache.
    pub fn new() -> (cache: VbCache<T>)
        ensures
            cache.wf(),
            cache.entries() == Seq::<(u64, T)>::empty(),
    {
        let cache = VbCache { cache: lru_new(CAPACITY), slots: Vec::new() };
        assert(cache.entries() =~= Seq::<(u64, T)>::empty());
        cache
    }

    /// The resource of a batch of records: what `get_or_create` returns for
    /// the content hash of the batch.
    pub fn test<F, L>(&mut self, layout: &[L], f: F) -> (resource: &T) where
        L: LayoutHash,
        F: FnOnce() -> T,

        requires
            old(self).wf(),
            f.requires(()),
        ensures
            final(self).wf(),
            caches(old(self).entries(), content_hash(layout@)) ==> {
                &&& final(self).entries() == touched(old(self).entries(), content_hash(layout@))
                &&& *resource == old(self).entries()[place_of(
                    old(self).entries(),
                    content_hash(layout@),
                )].1
            },
            !caches(old(self).entries(), content_hash(layout@)) ==> {
                &&& final(self).entries() == inserted(
                    old(self).entries(),
                    (content_hash(layout@), *resource),
                    CAPACITY as nat,
                )
                &&& f.ensures((), *resource)
            },
    {
        let hash = do_hash(layout);
        self.get_or_create(hash, f)
    }

    /// The resource kept under a content hash. Where the cache holds the hash
    /// the resource kept under it is returned, and counts as the one used
    /// last; `f` is not called. Otherwise `f` builds the resource, which is
    /// kept under the hash and returned; the cache then forgets the resource
    /// that was used least recently where it was full.
    pub fn get_or_create<F>(&mut self, hash: u64, f: F) -> (resource: &T) where F: FnOnce() -> T
        requires
            old(self).wf(),
            f.requires(()),
        ensures
            final(self).wf(),
            caches(old(self).entries(), hash) ==> {
                &&& final(self).entries() == touched(old(self).entries(), hash)
                &&& *resource == old(self).entries()[place_of(old(self).entries(), hash)].1
            },
            !caches(old(self).entries(), hash) ==> {
                &&& final(self).entries() == inserted(
                    old(self).entries(),
                    (hash, *resource),
                    CAPACITY as nat,
                )
                &&& f.ensures((), *resource)
            },
    {
        let ghost index = lru_entries(self.cache);
        let ghost before = self.entries();
        proof {
            self.lemma_caches(hash);
        }
        match lru_get(&mut self.cache, hash) {
            Some(slot) => {
                proof {
                    let at = place_of(index, hash);
                    let now = lru_entries(self.cache);
                    assert(now == touched(index, hash));
                    assert(place_of(before, hash) == at) by {
                        let other = place_of(before, hash);
                        assert(before[other].0 == hash);
                        assert(index[other].0 == hash);
                        if other < at {
                            assert(index[other].0 != index[at].0);
                        }
                        if at < other {
                            assert(index[at].0 != index[other].0);
                        }
                    }
                    assert(self.entries() =~= touched(before, hash));
                    assert forall|i: int, j: int| 0 <= i < j < now.len() implies (
                    #[trigger] now[i]).0 != (#[trigger] now[j]).0 && now[i].1 != now[j].1 by {
                        let a: int = if i == 0 {
                            at
                        } else if i <= at {
                            i - 1
                        } else {
                            i
                        };
                        let b: int = if j <= at {
                            j - 1
                        } else {
                            j
                        };
                        assert(now[i] == index[a]);
                        assert(now[j] == index[b]);
                        if a < b {
                            assert(index[a].0 != index[b].0);
                            assert(index[a].1 != index[b].1);
                        } else {
                            assert(index[b].0 != index[a].0);
                            assert(index[b].1 != index[a].1);
                        }
                    }
                    assert forall|i: int| 0 <= i < now.len() implies (#[trigger] now[i]).1
                        < self.slots@.len() by {
                        let a: int = if i == 0 {
                            at
                        } else if i <= at {
                            i - 1
                        } else {
                            i
                        };
                        assert(now[i] == index[a]);
                    }
                }
                &self.slots[slot]
            },
            None => {
                let value = f();
                let ghost built = value;
                let slot = if self.slots.len() == CAPACITY {
                    match lru_peek_lru(&self.cache) {
                        Some(entry) => {
                            self.slots.set(entry.1, value);
                            entry.1
                        },
                        None => unreached(),
                    }
                } else {
                    self.slots.push(value);
                    self.slots.len() - 1
                };
                lru_put(&mut self.cache, hash, slot);
                proof {
                    let now = lru_entries(self.cache);
                    assert(now == inserted(index, (hash, slot), CAPACITY as nat));
                    assert forall|i: int, j: int| 0 <= i < j < now.len() implies (
                    #[trigger] now[i]).0 != (#[trigger] now[j]).0 && now[i].1 != now[j].1 by {
                        if i == 0 {
                            assert(now[j] == index[j - 1]);
                            if index.len() == CAPACITY {
                                assert(index[j - 1].1 != index.last().1);
                            }
                        } else {
                            assert(now[i] == index[i - 1]);
                            assert(now[j] == index[j - 1]);
                            assert(index[i - 1].0 != index[j - 1].0);
                            assert(index[i - 1].1 != index[j - 1].1);
                        }
                    }
                    assert forall|i: int| 0 <= i < now.len() implies (#[trigger] now[i]).1
                        < self.slots@.len() by {
                        if i > 0 {
                            assert(now[i] == index[i - 1]);
                        }
                    }
                    assert(self.entries() =~= inserted(before, (hash, built), CAPACITY as nat)) by {
                        assert forall|i: int| 0 < i < now.len() implies self.entries()[i]
                            == before[i - 1] by {
                            assert(now[i] == index[i - 1]);
                            if index.len() == CAPACITY {
                                assert(index[i - 1].1 != index.last().1);
                            }
                        }
                    }
                }
                &self.slots[slot]
            },
        }
    }

    /// The cache holds a hash exactly if its index holds it.
    proof fn lemma_caches(&self, hash: u64)
        ensures
            caches(self.entries(), hash) == caches(lru_entries(self.cache), hash),
    {
        let index = lru_entries(self.cache);
        if caches(self.entries(), hash) {
            let i = place_of(self.entries(), hash);
            assert(index[i].0 == hash);
        }
        if caches(index, hash) {
            let i = place_of(index, hash);
            assert(self.entries()[i].0 == hash);
        }
    }
}

} // verus!
