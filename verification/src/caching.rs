//! A bounded, TTL-based read-through cache for hot, small objects.
//!
//! The two hard rules: the entry count never exceeds `max_capacity`, and no
//! entry is handed out once `ttl_seconds` have passed since it was inserted.
//! Admission is by size: payloads over `max_file_size` are never cached, and
//! a disabled cache never returns a hit. Within those rules the eviction
//! choice is deliberately unspecified; this implementation drops the
//! longest-resident entry under capacity pressure.

use vstd::prelude::*;

use crate::clock;
use crate::error::ApiError;
use crate::kvmap::{assoc_find, assoc_insert, assoc_pairs, lemma_filter_unique_keys,
    lemma_map_of_dom_index, lemma_map_of_dom_len, lemma_map_of_index, lemma_map_of_remove, map_of,
    unique_keys};
use crate::metadata::{FileMetadata, MetaView};

verus! {

/// The default bound on cached entries.
pub fn default_max_capacity() -> (r: u64)
    ensures
        r == 1000,
{
    1000
}

/// The default time an entry may stay cached: one hour.
pub fn default_ttl_seconds() -> (r: u64)
    ensures
        r == 3600,
{
    3600
}

/// The default per-entry admission cutoff: ten mebibytes.
pub fn default_max_file_size() -> (r: u64)
    ensures
        r == 10485760,
{
    10 * 1024 * 1024
}

/// How the cache is bounded: entry count, residence time, per-entry size,
/// and whether it is on at all.
#[derive(Debug, Clone, Copy, PartialEq, Eq, Structural)]
pub struct CacheConfig {
    pub max_capacity: u64,
    pub ttl_seconds: u64,
    pub max_file_size: u64,
    pub enabled: bool,
}

impl Default for CacheConfig {
    /// The default configuration: the default bounds, disabled.
    fn default() -> (r: Self)
        ensures
            r.max_capacity == 1000,
            r.ttl_seconds == 3600,
            r.max_file_size == 10485760,
            r.enabled == false,
    {
        CacheConfig {
            max_capacity: default_max_capacity(),
            ttl_seconds: default_ttl_seconds(),
            max_file_size: default_max_file_size(),
            enabled: false,
        }
    }
}

/// What a cache hit hands back: raw bytes paired with the record that was
/// valid when the cache was filled.
pub struct CachedFile {
    pub data: Vec<u8>,
    pub metadata: FileMetadata,
}

/// One resident entry: a payload, its record, and when it arrived.
pub struct CacheSlot {
    pub data: Vec<u8>,
    pub metadata: FileMetadata,
    pub inserted_at: i64,
}

/// The mathematical value of a [`CacheSlot`].
pub ghost struct CacheSlotView {
    pub data: Seq<u8>,
    pub meta: MetaView,
    pub inserted_at: i64,
}

impl View for CacheSlot {
    type V = CacheSlotView;

    open spec fn view(&self) -> CacheSlotView {
        CacheSlotView { data: self.data@, meta: self.metadata@, inserted_at: self.inserted_at }
    }
}

/// Whether a slot inserted at `slot.inserted_at` is still fresh at `now`
/// under residence bound `ttl_seconds`.
pub open spec fn slot_fresh(slot: CacheSlotView, ttl_seconds: u64, now: i64) -> bool {
    now - slot.inserted_at < ttl_seconds
}

/// Current entry count and an aggregate of the resident payload sizes.
pub struct CacheStats {
    pub entry_count: u64,
    pub weighted_size: u64,
}

/// The total payload size of a run of entries.
pub open spec fn sizes_sum(s: Seq<(Seq<char>, CacheSlotView)>) -> int
    decreases s.len(),
{
    if s.len() == 0 {
        0
    } else {
        sizes_sum(s.drop_last()) + s.last().1.data.len()
    }
}

/// The bounded, TTL-based cache.
pub struct FileCache {
    entries: Vec<(String, CacheSlot)>,
    config: CacheConfig,
}

impl FileCache {
    /// The resident entries, keyed by name.
    pub closed spec fn entries_map(&self) -> Map<Seq<char>, CacheSlotView> {
        map_of(assoc_pairs(self.entries@))
    }

    /// The resident entries in residence order, oldest first.
    pub closed spec fn resident_pairs(&self) -> Seq<(Seq<char>, CacheSlotView)> {
        assoc_pairs(self.entries@)
    }

    /// The configuration the cache was built with.
    pub closed spec fn spec_config(&self) -> CacheConfig {
        self.config
    }

    /// The cache invariant: unique keys, never more entries than the
    /// capacity allows.
    pub closed spec fn inv(&self) -> bool {
        &&& unique_keys(assoc_pairs(self.entries@))
        &&& self.entries@.len() <= self.config.max_capacity
    }

    /// An empty cache under `config`.
    pub fn new(config: CacheConfig) -> (r: Self)
        ensures
            r.inv(),
            r.spec_config() == config,
            r.entries_map() == Map::<Seq<char>, CacheSlotView>::empty(),
    {
        let r = FileCache { entries: Vec::new(), config };
        proof {
            assert(assoc_pairs(r.entries@) =~= Seq::empty());
        }
        r
    }

    /// The cached entry under `key` as of time `now`: present and fresh, or
    /// nothing — and always nothing while the cache is disabled.
    pub fn get_at(&self, key: &str, now: i64) -> (r: Option<CachedFile>)
        requires
            self.inv(),
        ensures
            r matches Some(c) ==> {
                &&& self.spec_config().enabled
                &&& self.entries_map().dom().contains(key@)
                &&& slot_fresh(self.entries_map()[key@], self.spec_config().ttl_seconds, now)
                &&& c.data@ == self.entries_map()[key@].data
                &&& c.metadata@ == self.entries_map()[key@].meta
            },
            r is None ==> !self.spec_config().enabled || !self.entries_map().dom().contains(key@)
                || !slot_fresh(self.entries_map()[key@], self.spec_config().ttl_seconds, now),
    {
        if !self.config.enabled {
            return None;
        }
        match assoc_find(&self.entries, key) {
            Some(i) => {
                proof {
                    lemma_map_of_index(assoc_pairs(self.entries@), i as int);
                }
                let slot = &self.entries[i].1;
                if (now as i128) - (slot.inserted_at as i128) < (self.config.ttl_seconds as i128) {
                    let mut data: Vec<u8> = Vec::new();
                    data.extend_from_slice(slot.data.as_slice());
                    proof {
                        assert(data@ =~= slot.data@);
                    }
                    Some(CachedFile { data, metadata: slot.metadata.clone() })
                } else {
                    None
                }
            },
            None => None,
        }
    }

    /// The cached entry under `key` as of the clock's present reading.
    pub fn get(&self, key: &str) -> (r: Option<CachedFile>)
        requires
            self.inv(),
        ensures
            r matches Some(c) ==> {
                &&& self.spec_config().enabled
                &&& self.entries_map().dom().contains(key@)
                &&& c.data@ == self.entries_map()[key@].data
                &&& c.metadata@ == self.entries_map()[key@].meta
            },
            !self.spec_config().enabled ==> r is None,
            !self.entries_map().dom().contains(key@) ==> r is None,
    {
        let now = clock::now_seconds();
        self.get_at(key, now)
    }

    /// Admits `data` under `key` as of time `now`, when admission allows:
    /// a disabled cache, an oversized payload, or a zero capacity leave the
    /// cache untouched; otherwise the entry is resident afterwards, nothing
    /// else appears, and the capacity bound holds.
    pub fn put_at(&mut self, key: String, data: Vec<u8>, metadata: FileMetadata, now: i64)
        requires
            old(self).inv(),
        ensures
            final(self).inv(),
            final(self).spec_config() == old(self).spec_config(),
            !old(self).spec_config().enabled || data@.len() > old(self).spec_config().max_file_size
                || old(self).spec_config().max_capacity == 0 ==> final(self).entries_map() == old(self).entries_map(),
            old(self).spec_config().enabled && data@.len() <= old(self).spec_config().max_file_size
                && old(self).spec_config().max_capacity > 0 ==> {
                &&& final(self).entries_map().dom().contains(key@)
                &&& final(self).entries_map()[key@] == (CacheSlotView {
                    data: data@,
                    meta: metadata@,
                    inserted_at: now,
                })
                &&& forall|k: Seq<char>|
                    #[trigger] final(self).entries_map().dom().contains(k) && k != key@ ==> old(self).entries_map().dom().contains(k)
                        && old(self).entries_map()[k] == final(self).entries_map()[k]
            },
    {
        if !self.config.enabled {
            return ;
        }
        if data.len() as u64 > self.config.max_file_size {
            return ;
        }
        if self.config.max_capacity == 0 {
            return ;
        }

        // Make room: under capacity pressure the longest-resident entry
        // leaves, unless the key is already resident and will be replaced.
        let ghost pairs0 = assoc_pairs(self.entries@);
        let found = assoc_find(&self.entries, key.as_str());
        let already = found.is_some();
        proof {
            match found {
                Some(i) => lemma_map_of_index(pairs0, i as int),
                None => (),
            }
            assert(already == self.entries_map().dom().contains(key@));
        }
        if !already && self.entries.len() as u64 >= self.config.max_capacity {
            proof {
                lemma_map_of_remove(assoc_pairs(self.entries@), 0);
            }
            let ghost before = assoc_pairs(self.entries@);
            self.entries.remove(0);
            proof {
                assert(assoc_pairs(self.entries@) =~= before.remove(0));
                assert forall|a: int, b: int|
                    0 <= a < b < assoc_pairs(self.entries@).len() implies (#[trigger] assoc_pairs(
                    self.entries@,
                )[a]).0 != (#[trigger] assoc_pairs(self.entries@)[b]).0 by {
                    assert(before[a + 1].0 != before[b + 1].0);
                }
            }
        }

        let slot = CacheSlot { data, metadata, inserted_at: now };
        assoc_insert(&mut self.entries, key, slot);
    }

    /// Admits `data` under `key` as of the clock's present reading.
    pub fn put(&mut self, key: String, data: Vec<u8>, metadata: FileMetadata) -> (r: Result<
        (),
        ApiError,
    >)
        requires
            old(self).inv(),
        ensures
            final(self).inv(),
            final(self).spec_config() == old(self).spec_config(),
            r is Ok,
            !old(self).spec_config().enabled || data@.len() > old(self).spec_config().max_file_size
                || old(self).spec_config().max_capacity == 0 ==> final(self).entries_map() == old(self).entries_map(),
            old(self).spec_config().enabled && data@.len() <= old(self).spec_config().max_file_size
                && old(self).spec_config().max_capacity > 0 ==> {
                &&& final(self).entries_map().dom().contains(key@)
                &&& final(self).entries_map()[key@].data == data@
                &&& final(self).entries_map()[key@].meta == metadata@
            },
    {
        let now = clock::now_seconds();
        self.put_at(key, data, metadata, now);
        Ok(())
    }

    /// Drops the entry under `key`; effective whether or not the cache is
    /// enabled.
    pub fn invalidate(&mut self, key: &str) -> (r: Result<(), ApiError>)
        requires
            old(self).inv(),
        ensures
            final(self).inv(),
            final(self).spec_config() == old(self).spec_config(),
            final(self).entries_map() == old(self).entries_map().remove(key@),
            r is Ok,
    {
        match crate::kvmap::assoc_remove(&mut self.entries, key) {
            Some(_) => {},
            None => {
                proof {
                    assert(old(self).entries_map().remove(key@) =~= old(self).entries_map());
                }
            },
        }
        Ok(())
    }

    /// Drops every entry; effective whether or not the cache is enabled.
    pub fn clear(&mut self) -> (r: Result<(), ApiError>)
        requires
            old(self).inv(),
        ensures
            final(self).inv(),
            final(self).spec_config() == old(self).spec_config(),
            final(self).entries_map() == Map::<Seq<char>, CacheSlotView>::empty(),
            r is Ok,
    {
        self.entries = Vec::new();
        proof {
            assert(assoc_pairs(self.entries@) =~= Seq::empty());
        }
        Ok(())
    }

    /// Law: the hard capacity rule — a well-formed cache never holds more
    /// entries than its configured capacity.
    pub proof fn lemma_capacity_bound(&self)
        requires
            self.inv(),
        ensures
            self.entries_map().dom().len() <= self.spec_config().max_capacity,
    {
        lemma_map_of_dom_len(assoc_pairs(self.entries@));
    }


    /// Sweeps out every entry whose residence time has passed as of `now`:
    /// exactly the fresh entries stay, unchanged.
    pub fn evict_expired_at(&mut self, now: i64)
        requires
            old(self).inv(),
        ensures
            final(self).inv(),
            final(self).spec_config() == old(self).spec_config(),
            forall|k: Seq<char>|
                #[trigger] final(self).entries_map().dom().contains(k) == (old(self).entries_map().dom().contains(k) && slot_fresh(
                    old(self).entries_map()[k],
                    old(self).spec_config().ttl_seconds,
                    now,
                )),
            forall|k: Seq<char>|
                #[trigger] final(self).entries_map().dom().contains(k) ==> final(self).entries_map()[k] == old(self).entries_map()[k],
    {
        let ghost orig = assoc_pairs(self.entries@);
        let ghost ttl = self.config.ttl_seconds;
        let ghost pred = |p: (Seq<char>, CacheSlotView)| slot_fresh(p.1, ttl, now);

        let mut kept: Vec<(String, CacheSlot)> = Vec::new();
        let mut i: usize = 0;
        while i < self.entries.len()
            invariant
                self.inv(),
                orig == assoc_pairs(self.entries@),
                ttl == self.config.ttl_seconds,
                pred == (|p: (Seq<char>, CacheSlotView)| slot_fresh(p.1, ttl, now)),
                0 <= i <= self.entries@.len(),
                assoc_pairs(kept@) == orig.take(i as int).filter(pred),
            decreases self.entries@.len() - i,
        {
            let slot = &self.entries[i].1;
            let fresh = (now as i128) - (slot.inserted_at as i128) < (self.config.ttl_seconds
                as i128);
            proof {
                broadcast use Seq::lemma_filter_push;

                assert(orig.take(i + 1 as int) =~= orig.take(i as int).push(orig[i as int]));
                assert(fresh == pred(orig[i as int]));
            }
            if fresh {
                let ghost old_kept = assoc_pairs(kept@);
                let key = self.entries[i].0.clone();
                let mut data: Vec<u8> = Vec::new();
                data.extend_from_slice(slot.data.as_slice());
                proof {
                    assert(data@ =~= slot.data@);
                }
                let copy = CacheSlot {
                    data,
                    metadata: slot.metadata.clone(),
                    inserted_at: slot.inserted_at,
                };
                kept.push((key, copy));
                proof {
                    assert(assoc_pairs(kept@) =~= old_kept.push(orig[i as int]));
                }
            }
            i += 1;
        }
        proof {
            assert(orig.take(self.entries@.len() as int) =~= orig);
        }
        proof {
            broadcast use vstd::seq_lib::group_filter_ensures;

            lemma_filter_unique_keys(orig, pred);
        }
        self.entries = kept;
        proof {
            broadcast use vstd::seq_lib::group_filter_ensures;

            assert forall|k: Seq<char>|
                #[trigger] self.entries_map().dom().contains(k) implies (map_of(
                orig,
            ).dom().contains(k) && slot_fresh(map_of(orig)[k], ttl, now) && self.entries_map()[k]
                == map_of(orig)[k]) by {
                lemma_map_of_dom_index(assoc_pairs(self.entries@), k);
                let t = choose|t: int|
                    0 <= t < assoc_pairs(self.entries@).len() && (#[trigger] assoc_pairs(
                        self.entries@,
                    )[t]).0 == k && self.entries_map()[k] == assoc_pairs(self.entries@)[t].1;
                Seq::lemma_filter_contains_rev(orig, pred, assoc_pairs(self.entries@)[t]);
                let j = choose|j: int|
                    0 <= j < orig.len() && orig[j] == assoc_pairs(self.entries@)[t as int];
                lemma_map_of_index(orig, j);
            }
            assert forall|k: Seq<char>|
                map_of(orig).dom().contains(k) && slot_fresh(
                    map_of(orig)[k],
                    ttl,
                    now,
                ) implies #[trigger] self.entries_map().dom().contains(k) by {
                lemma_map_of_dom_index(orig, k);
                let j = choose|j: int|
                    0 <= j < orig.len() && (#[trigger] orig[j]).0 == k && map_of(orig)[k]
                        == orig[j].1;
                Seq::lemma_filter_contains(orig, pred, j);
                let t = choose|t: int|
                    0 <= t < assoc_pairs(self.entries@).len() && assoc_pairs(self.entries@)[t]
                        == orig[j];
                lemma_map_of_index(assoc_pairs(self.entries@), t);
            }
        }
    }

    /// Runs cache maintenance by the clock's present reading: what stays
    /// was resident before and is unchanged.
    pub fn run_pending_tasks(&mut self)
        requires
            old(self).inv(),
        ensures
            final(self).inv(),
            final(self).spec_config() == old(self).spec_config(),
            forall|k: Seq<char>|
                #[trigger] final(self).entries_map().dom().contains(k) ==> old(self).entries_map().dom().contains(k) && final(self).entries_map()[k] == old(self).entries_map()[k],
    {
        let now = clock::now_seconds();
        self.evict_expired_at(now);
    }

    /// The entry count and the total resident payload size, the latter
    /// saturating at the largest reportable value.
    pub fn stats(&self) -> (r: CacheStats)
        requires
            self.inv(),
        ensures
            r.entry_count == self.entries_map().dom().len(),
            r.weighted_size == if sizes_sum(self.resident_pairs()) <= u64::MAX {
                sizes_sum(self.resident_pairs())
            } else {
                u64::MAX as int
            },
    {
        proof {
            lemma_map_of_dom_len(assoc_pairs(self.entries@));
        }
        let mut total: u64 = 0;
        let mut i: usize = 0;
        while i < self.entries.len()
            invariant
                0 <= i <= self.entries@.len(),
                total == if sizes_sum(assoc_pairs(self.entries@).take(i as int)) <= u64::MAX {
                    sizes_sum(assoc_pairs(self.entries@).take(i as int))
                } else {
                    u64::MAX as int
                },
            decreases self.entries@.len() - i,
        {
            let len = self.entries[i].1.data.len() as u64;
            if total > u64::MAX - len {
                total = u64::MAX;
            } else {
                total = total + len;
            }
            proof {
                assert(assoc_pairs(self.entries@).take(i + 1 as int).drop_last() =~= assoc_pairs(
                    self.entries@,
                ).take(i as int));
                assert(assoc_pairs(self.entries@).take(i + 1 as int).last() == assoc_pairs(
                    self.entries@,
                )[i as int]);
            }
            i += 1;
        }
        proof {
            assert(assoc_pairs(self.entries@).take(self.entries@.len() as int) =~= assoc_pairs(
                self.entries@,
            ));
        }
        CacheStats { entry_count: self.entries.len() as u64, weighted_size: total }
    }
}

} // verus!
