use vstd::prelude::*;
use crate::snapshot::{PackageSnapshot, SnapshotModel, snapshot_opt_model};

verus! {

/// What the cache records for one version key.
pub struct SlotModel {
    /// The last snapshot stored, if any.
    pub snapshot: Option<SnapshotModel>,
    /// Whether a population of this key is outstanding.
    pub in_flight: bool,
}

/// The mathematical value of a `VersionCache`: one slot per key seen.
pub type CacheModel = Map<Seq<char>, SlotModel>;

/// The snapshot stored for `k`, if any.
pub open spec fn stored(m: CacheModel, k: Seq<char>) -> Option<SnapshotModel> {
    if m.contains_key(k) {
        m[k].snapshot
    } else {
        None
    }
}

/// Whether a population of `k` is outstanding.
pub open spec fn pending(m: CacheModel, k: Seq<char>) -> bool {
    m.contains_key(k) && m[k].in_flight
}

/// The cache after `s` is stored for `k`; the in-flight marker is kept.
pub open spec fn put_model(m: CacheModel, k: Seq<char>, s: SnapshotModel) -> CacheModel {
    m.insert(k, SlotModel { snapshot: Some(s), in_flight: pending(m, k) })
}

/// The cache after a population of `k` is requested.
pub open spec fn begin_model(m: CacheModel, k: Seq<char>) -> CacheModel {
    m.insert(k, SlotModel { snapshot: stored(m, k), in_flight: true })
}

/// The cache after a population of `k` completes with `s`.
pub open spec fn finish_model(m: CacheModel, k: Seq<char>, s: SnapshotModel) -> CacheModel {
    m.insert(k, SlotModel { snapshot: Some(s), in_flight: false })
}

/// Storing or populating one key leaves what every other key holds, and
/// whether its own population is outstanding, as it was.
pub proof fn lemma_other_keys_unaffected(
    m: CacheModel,
    k1: Seq<char>,
    k2: Seq<char>,
    s: SnapshotModel,
)
    requires
        k1 != k2,
    ensures
        stored(put_model(m, k1, s), k2) == stored(m, k2),
        pending(put_model(m, k1, s), k2) == pending(m, k2),
        stored(begin_model(m, k1), k2) == stored(m, k2),
        pending(begin_model(m, k1), k2) == pending(m, k2),
        stored(finish_model(m, k1, s), k2) == stored(m, k2),
        pending(finish_model(m, k1, s), k2) == pending(m, k2),
{
}

/// Of two snapshots stored for one key, in that order, a read afterwards
/// returns the second, whole; it makes no difference whether each store
/// was a plain store or the completion of a population.
pub proof fn lemma_last_write_wins(m: CacheModel, k: Seq<char>, s1: SnapshotModel, s2: SnapshotModel)
    ensures
        stored(put_model(put_model(m, k, s1), k, s2), k) == Some(s2),
        stored(finish_model(finish_model(m, k, s1), k, s2), k) == Some(s2),
        stored(put_model(finish_model(m, k, s1), k, s2), k) == Some(s2),
        stored(finish_model(put_model(m, k, s1), k, s2), k) == Some(s2),
{
}

/// A read right after a store returns exactly what was stored.
pub proof fn lemma_read_after_write(m: CacheModel, k: Seq<char>, s: SnapshotModel)
    ensures
        stored(put_model(m, k, s), k) == Some(s),
        stored(finish_model(m, k, s), k) == Some(s),
{
}

/// Requesting a population of a key whose population is outstanding
/// changes nothing and starts no second fetch; once the population
/// completes, the next request starts one again.
pub proof fn lemma_one_fetch_per_key(m: CacheModel, k: Seq<char>, s: SnapshotModel)
    ensures
        pending(begin_model(m, k), k),
        pending(m, k) ==> begin_model(m, k) == m,
        begin_model(begin_model(m, k), k) == begin_model(m, k),
        !pending(finish_model(begin_model(m, k), k, s), k),
{
    if pending(m, k) {
        assert(begin_model(m, k) =~= m);
    }
    assert(begin_model(begin_model(m, k), k) =~= begin_model(m, k));
}

/// Map from version key to its latest package snapshot, with a marker per
/// key for a population that is under way. Entries are created on first
/// reference and overwritten, never removed.
///
/// The keys are strings, and vstd specifies neither their hashing nor their
/// ordering, so a std map keyed by them would prove nothing of a lookup. The
/// slots stand in three parallel vectors instead, with keys kept distinct.
pub struct VersionCache {
    keys: Vec<String>,
    entries: Vec<Option<PackageSnapshot>>,
    in_flight: Vec<bool>,
}

impl VersionCache {
    pub closed spec fn wf(&self) -> bool {
        &&& self.keys.len() == self.entries.len()
        &&& self.keys.len() == self.in_flight.len()
        &&& forall|i: int, j: int|
            0 <= i < j < self.keys.len() ==> self.keys@[i]@ != self.keys@[j]@
    }

    spec fn knows(&self, k: Seq<char>) -> bool {
        exists|i: int| 0 <= i < self.keys.len() && self.keys@[i]@ == k
    }

    spec fn slot_at(&self, i: int) -> SlotModel {
        SlotModel {
            snapshot: match self.entries@[i] {
                Some(s) => Some(s@),
                None => None,
            },
            in_flight: self.in_flight@[i],
        }
    }

    spec fn index_of(&self, k: Seq<char>) -> int {
        choose|i: int| 0 <= i < self.keys.len() && self.keys@[i]@ == k
    }

    pub closed spec fn view(&self) -> CacheModel {
        Map::new(|k: Seq<char>| self.knows(k), |k: Seq<char>| self.slot_at(self.index_of(k)))
    }

    proof fn lemma_slot(&self, i: int)
        requires
            self.wf(),
            0 <= i < self.keys.len(),
        ensures
            self.view().contains_key(self.keys@[i]@),
            self.view()[self.keys@[i]@] == self.slot_at(i),
    {
        let k = self.keys@[i]@;
        assert(self.knows(k));
        let j = self.index_of(k);
        assert(0 <= j < self.keys.len() && self.keys@[j]@ == k);
        if j != i {
            if j < i {
                assert(self.keys@[j]@ != self.keys@[i]@);
            } else {
                assert(self.keys@[i]@ != self.keys@[j]@);
            }
        }
    }

    /// An empty cache.
    pub fn new() -> (r: VersionCache)
        ensures
            r.wf(),
            r.view() == Map::<Seq<char>, SlotModel>::empty(),
    {
        let r = VersionCache { keys: Vec::new(), entries: Vec::new(), in_flight: Vec::new() };
        assert(r.view() =~= Map::<Seq<char>, SlotModel>::empty());
        r
    }

    /// The position of `key`, if the cache has a slot for it.
    fn find(&self, key: &String) -> (r: Option<usize>)
        requires
            self.wf(),
        ensures
            match r {
                Some(i) => i < self.keys.len() && self.keys@[i as int]@ == key@,
                None => !self.view().contains_key(key@),
            },
    {
        let mut i: usize = 0;
        while i < self.keys.len()
            invariant
                i <= self.keys.len(),
                forall|j: int| 0 <= j < i ==> self.keys@[j]@ != key@,
            decreases self.keys.len() - i,
        {
            if self.keys[i] == *key {
                return Some(i);
            }
            i = i + 1;
        }
        None
    }

    /// The position of `key`, creating an empty slot for it if there was none.
    fn slot(&mut self, key: &String) -> (r: usize)
        requires
            old(self).wf(),
        ensures
            final(self).wf(),
            r < final(self).keys.len(),
            final(self).keys@[r as int]@ == key@,
            final(self).view() == (if old(self).view().contains_key(key@) {
                old(self).view()
            } else {
                old(self).view().insert(key@, SlotModel { snapshot: None, in_flight: false })
            }),
    {
        match self.find(key) {
            Some(i) => i,
            None => {
                let ghost before = *self;
                self.keys.push(key.clone());
                self.entries.push(None);
                self.in_flight.push(false);
                let n = self.keys.len() - 1;
                assert forall|i: int, j: int|
                    0 <= i < j < self.keys.len() implies self.keys@[i]@ != self.keys@[j]@ by {
                    if j == n {
                        assert(before.keys@[i] == self.keys@[i]);
                        if before.keys@[i]@ == key@ {
                            assert(before.knows(key@));
                        }
                    }
                };
                assert(self.wf());
                let ghost expect = before.view().insert(
                    key@,
                    SlotModel { snapshot: None, in_flight: false },
                );
                assert forall|k: Seq<char>| #[trigger] self.view().contains_key(k) == expect.contains_key(k) by {
                    if self.knows(k) {
                        let i = choose|i: int| 0 <= i < self.keys.len() && self.keys@[i]@ == k;
                        if i < n {
                            assert(before.keys@[i] == self.keys@[i]);
                            assert(before.knows(k));
                        }
                    }
                    if before.knows(k) {
                        let i = choose|i: int| 0 <= i < before.keys.len() && before.keys@[i]@ == k;
                        assert(self.keys@[i] == before.keys@[i]);
                        assert(self.knows(k));
                    }
                    if k == key@ {
                        assert(self.keys@[n as int]@ == k);
                    }
                };
                assert forall|k: Seq<char>| #[trigger] self.view().contains_key(k) implies self.view()[k] == expect[k] by {
                    let i = choose|i: int| 0 <= i < self.keys.len() && self.keys@[i]@ == k;
                    self.lemma_slot(i);
                    if i < n {
                        assert(before.keys@[i] == self.keys@[i]);
                        before.lemma_slot(i);
                        assert(before.slot_at(i) == self.slot_at(i));
                    }
                };
                assert(self.view() =~= expect);
                n
            },
        }
    }

    proof fn lemma_changed_at(before: &VersionCache, after: &VersionCache, i: int)
        requires
            before.wf(),
            after.wf(),
            0 <= i < before.keys.len(),
            after.keys@ == before.keys@,
            forall|j: int| 0 <= j < before.keys.len() && j != i ==> after.slot_at(j) == before.slot_at(j),
        ensures
            after.view() == before.view().insert(before.keys@[i]@, after.slot_at(i)),
    {
        let expect = before.view().insert(before.keys@[i]@, after.slot_at(i));
        assert forall|k: Seq<char>| #[trigger] after.view().contains_key(k) == expect.contains_key(k) by {
            if after.knows(k) {
                let j = choose|j: int| 0 <= j < after.keys.len() && after.keys@[j]@ == k;
                assert(before.knows(k));
            }
            if before.knows(k) {
                let j = choose|j: int| 0 <= j < before.keys.len() && before.keys@[j]@ == k;
                assert(after.knows(k));
            }
        };
        assert forall|k: Seq<char>| #[trigger] after.view().contains_key(k) implies after.view()[k] == expect[k] by {
            let j = choose|j: int| 0 <= j < after.keys.len() && after.keys@[j]@ == k;
            after.lemma_slot(j);
            before.lemma_slot(j);
        };
        assert(after.view() =~= expect);
    }

    /// Stores `s` as the snapshot of `key`, replacing any earlier one whole.
    /// An outstanding population of `key` stays outstanding.
    pub fn put(&mut self, key: &String, s: PackageSnapshot)
        requires
            old(self).wf(),
        ensures
            final(self).wf(),
            final(self).view() == put_model(old(self).view(), key@, s@),
    {
        let ghost m0 = self.view();
        let i = self.slot(key);
        let ghost before = *self;
        proof {
            before.lemma_slot(i as int);
        }
        self.entries[i] = Some(s);
        proof {
            VersionCache::lemma_changed_at(&before, self, i as int);
            assert(self.view() =~= put_model(m0, key@, s@));
        }
    }

    /// Marks a population of `key` as under way. Returns `false`, and changes
    /// nothing, where one already is: the caller starts a fetch only on `true`.
    pub fn begin(&mut self, key: &String) -> (started: bool)
        requires
            old(self).wf(),
        ensures
            final(self).wf(),
            started == !pending(old(self).view(), key@),
            final(self).view() == begin_model(old(self).view(), key@),
            !started ==> final(self).view() == old(self).view(),
    {
        let ghost m0 = self.view();
        let i = self.slot(key);
        let ghost before = *self;
        proof {
            before.lemma_slot(i as int);
        }
        if self.in_flight[i] {
            assert(self.view() =~= begin_model(m0, key@));
            false
        } else {
            self.in_flight[i] = true;
            proof {
                VersionCache::lemma_changed_at(&before, self, i as int);
                assert(self.view() =~= begin_model(m0, key@));
            }
            true
        }
    }

    /// Records that the population of `key` completed with `s`: stores it and
    /// clears the in-flight marker.
    pub fn finish(&mut self, key: &String, s: PackageSnapshot)
        requires
            old(self).wf(),
        ensures
            final(self).wf(),
            final(self).view() == finish_model(old(self).view(), key@, s@),
    {
        let ghost m0 = self.view();
        let i = self.slot(key);
        let ghost before = *self;
        self.entries[i] = Some(s);
        self.in_flight[i] = false;
        proof {
            VersionCache::lemma_changed_at(&before, self, i as int);
            assert(self.view() =~= finish_model(m0, key@, s@));
        }
    }

    /// The snapshot last stored for `key`; never starts a fetch.
    pub fn get(&self, key: &String) -> (r: Option<&PackageSnapshot>)
        requires
            self.wf(),
        ensures
            snapshot_opt_model(r) == stored(self.view(), key@),
    {
        match self.find(key) {
            Some(i) => {
                proof {
                    self.lemma_slot(i as int);
                }
                match &self.entries[i] {
                    Some(s) => Some(s),
                    None => None,
                }
            },
            None => None,
        }
    }

    /// Whether a population of `key` is outstanding.
    pub fn is_pending(&self, key: &String) -> (r: bool)
        requires
            self.wf(),
        ensures
            r == pending(self.view(), key@),
    {
        match self.find(key) {
            Some(i) => {
                proof {
                    self.lemma_slot(i as int);
                }
                self.in_flight[i]
            },
            None => false,
        }
    }
}

} // verus!
