//! The storage contract every backend implements, and a verified in-memory
//! backend.
//!
//! A backend is, mathematically, a map from keys to stored objects. Writes
//! may fail (a backend is free to be unreachable), but whatever succeeds
//! must move the map exactly as stated here, and a missing object must
//! surface as `FileNotFound`, never as anything else.

use vstd::prelude::*;

use crate::error::ApiError;
use crate::kvmap::{lemma_map_of_absent, lemma_map_of_dom_index, lemma_map_of_index,
    lemma_map_of_push, lemma_map_of_remove, lemma_map_of_update, map_of, unique_keys};
use crate::metadata::{FileMetadata, MetaView};
use crate::text::str_starts_with;

verus! {

/// The mathematical value of one stored object: its payload and its record.
pub ghost struct StoredObject {
    pub data: Seq<u8>,
    pub meta: MetaView,
}

/// A time-limited URL a capable backend can hand out.
pub struct PresignedUrl {
    pub url: String,
    pub expires_at: i64,
}

/// The prefix a listing narrows to: no prefix means every key.
pub open spec fn prefix_view(prefix: Option<&str>) -> Seq<char> {
    match prefix {
        Some(p) => p@,
        None => Seq::empty(),
    }
}

/// What a listing must return: the records of exactly the keys that carry
/// the prefix — every returned record is stored under such a key, and the
/// record of every such key is returned.
pub open spec fn is_listing(
    m: Map<Seq<char>, StoredObject>,
    p: Seq<char>,
    out: Seq<MetaView>,
) -> bool {
    &&& forall|i: int|
        0 <= i < out.len() ==> exists|k: Seq<char>|
            m.dom().contains(k) && p.is_prefix_of(k) && m[k].meta == #[trigger] out[i]
    &&& forall|k: Seq<char>|
        #[trigger] m.dom().contains(k) && p.is_prefix_of(k) ==> out.contains(m[k].meta)
}

/// The uniform contract over physically different backends.
///
/// `contents` is the backend's state as a map; `inv` is whatever internal
/// invariant the implementation keeps. Any operation may fail with a
/// backend error, but an `Ok` moves `contents` exactly as stated, and
/// `FileNotFound` comes back only when the key is truly absent. The
/// `NotFound` kind belongs to the services above (versions, share links):
/// a backend never reports it, so a service's own `NotFound` is never a
/// relabelled backend failure.
pub trait Storage: Sized {
    /// The stored objects, keyed by name. The default is the empty map;
    /// every backend the library reasons about overrides it.
    open spec fn contents(&self) -> Map<Seq<char>, StoredObject> {
        Map::empty()
    }

    /// The implementation's internal invariant. The default holds always;
    /// every backend the library reasons about overrides it.
    open spec fn inv(&self) -> bool {
        true
    }

    /// Persists payload and record under `key`, overwriting either. A
    /// failed write leaves the object either untouched or fully written —
    /// the write may have landed before the failure was reported — so a
    /// caller can always retry.
    fn put(&mut self, key: &str, data: Vec<u8>, metadata: FileMetadata) -> (r: Result<
        (),
        ApiError,
    >)
        requires
            old(self).inv(),
        ensures
            final(self).inv(),
            r is Ok ==> final(self).contents() == old(self).contents().insert(
                key@,
                StoredObject { data: data@, meta: metadata@ },
            ),
            r is Err ==> final(self).contents() == old(self).contents() || final(self).contents()
                == old(self).contents().insert(
                key@,
                StoredObject { data: data@, meta: metadata@ },
            ),
            r matches Err(e) ==> !(e is NotFound),
    ;

    /// Returns the payload and record stored under `key`.
    fn get(&self, key: &str) -> (r: Result<(Vec<u8>, FileMetadata), ApiError>)
        requires
            self.inv(),
        ensures
            r matches Ok(p) ==> self.contents().dom().contains(key@) && p.0@ == self.contents()[
                key@
            ].data && p.1@ == self.contents()[key@].meta,
            r matches Err(e) && e is FileNotFound ==> !self.contents().dom().contains(key@),
            r matches Err(e) ==> !(e is NotFound),
    ;

    /// Removes the object stored under `key`.
    fn delete(&mut self, key: &str) -> (r: Result<(), ApiError>)
        requires
            old(self).inv(),
        ensures
            final(self).inv(),
            r is Ok ==> old(self).contents().dom().contains(key@) && final(self).contents() == old(
                self,
            ).contents().remove(key@),
            r matches Err(e) && e is FileNotFound ==> !old(self).contents().dom().contains(key@)
                && final(self).contents() == old(self).contents(),
            r matches Err(e) ==> !(e is NotFound),
    ;

    /// Lists the records of every key carrying `prefix` (all keys when no
    /// prefix is given); the order is backend-defined.
    fn list(&self, prefix: Option<&str>) -> (r: Result<Vec<FileMetadata>, ApiError>)
        requires
            self.inv(),
        ensures
            r matches Ok(v) ==> is_listing(self.contents(), prefix_view(prefix), v.deep_view()),
            r matches Err(e) ==> !(e is NotFound),
    ;

    /// Whether an object is stored under `key`; never fails merely because
    /// the key is absent.
    fn exists_key(&self, key: &str) -> (r: Result<bool, ApiError>)
        requires
            self.inv(),
        ensures
            r matches Ok(b) ==> b == self.contents().dom().contains(key@),
            r matches Err(e) ==> !(e is NotFound),
    ;

    /// As `get`, without the payload.
    fn get_metadata(&self, key: &str) -> (r: Result<FileMetadata, ApiError>)
        requires
            self.inv(),
        ensures
            r matches Ok(m) ==> self.contents().dom().contains(key@) && m@ == self.contents()[
                key@
            ].meta,
            r matches Err(e) && e is FileNotFound ==> !self.contents().dom().contains(key@),
            r matches Err(e) ==> !(e is NotFound),
    ;

    /// A time-limited download URL; backends without native support fail.
    fn generate_presigned_download_url(&self, key: &str, expires_in_seconds: u64) -> Result<
        PresignedUrl,
        ApiError,
    > {
        let _ = key;
        let _ = expires_in_seconds;
        Err(
            ApiError::Storage(
                String::from_str("Presigned URLs not supported for this storage backend"),
            ),
        )
    }

    /// A time-limited upload URL; backends without native support fail.
    fn generate_presigned_upload_url(&self, key: &str, expires_in_seconds: u64) -> Result<
        PresignedUrl,
        ApiError,
    > {
        let _ = key;
        let _ = expires_in_seconds;
        Err(
            ApiError::Storage(
                String::from_str("Presigned URLs not supported for this storage backend"),
            ),
        )
    }
}

/// One stored object of the in-memory backend.
pub struct MemoryEntry {
    pub key: String,
    pub data: Vec<u8>,
    pub meta: FileMetadata,
}

/// A backend that keeps everything in memory: the reference implementation
/// of the storage contract, and the one the tests run against.
pub struct MemoryStorage {
    entries: Vec<MemoryEntry>,
}

impl MemoryStorage {
    /// The entries as key-object pairs.
    pub closed spec fn pairs(&self) -> Seq<(Seq<char>, StoredObject)> {
        self.entries@.map(
            |i: int, e: MemoryEntry| (e.key@, StoredObject { data: e.data@, meta: e.meta@ }),
        )
    }

    /// An empty backend.
    pub fn new() -> (r: Self)
        ensures
            r.inv(),
            r.contents() == Map::<Seq<char>, StoredObject>::empty(),
    {
        let r = MemoryStorage { entries: Vec::new() };
        proof {
            assert(r.pairs() =~= Seq::empty());
        }
        r
    }

    /// The position holding `key`, if any.
    fn find(&self, key: &str) -> (r: Option<usize>)
        requires
            self.inv(),
        ensures
            r matches Some(i) ==> i < self.entries@.len() && self.pairs()[i as int].0 == key@,
            r is None ==> !self.contents().dom().contains(key@),
    {
        let mut i: usize = 0;
        while i < self.entries.len()
            invariant
                0 <= i <= self.entries@.len(),
                forall|j: int| 0 <= j < i ==> (#[trigger] self.pairs()[j]).0 != key@,
            decreases self.entries@.len() - i,
        {
            if crate::text::str_eq(self.entries[i].key.as_str(), key) {
                return Some(i);
            }
            i += 1;
        }
        proof {
            lemma_map_of_absent(self.pairs(), key@);
        }
        None
    }
}

impl Storage for MemoryStorage {
    open spec fn contents(&self) -> Map<Seq<char>, StoredObject> {
        map_of(self.pairs())
    }

    open spec fn inv(&self) -> bool {
        unique_keys(self.pairs())
    }

    fn put(&mut self, key: &str, data: Vec<u8>, metadata: FileMetadata) -> (r: Result<
        (),
        ApiError,
    >)
        ensures
            r is Ok,
    {
        let ghost obj = StoredObject { data: data@, meta: metadata@ };
        match self.find(key) {
            Some(i) => {
                proof {
                    lemma_map_of_update(self.pairs(), i as int, obj);
                }
                let entry = MemoryEntry { key: String::from_str(key), data, meta: metadata };
                let ghost old_pairs = self.pairs();
                self.entries.set(i, entry);
                proof {
                    assert(self.pairs() =~= old_pairs.update(i as int, (key@, obj)));
                    assert(old_pairs.update(i as int, (key@, obj)) =~= old_pairs.update(
                        i as int,
                        (old_pairs[i as int].0, obj),
                    ));
                    assert forall|a: int, b: int|
                        0 <= a < b < self.pairs().len() implies (#[trigger] self.pairs()[a]).0 != (
                    #[trigger] self.pairs()[b]).0 by {
                        assert(old_pairs[a].0 != old_pairs[b].0);
                        assert(self.pairs()[a].0 == old_pairs[a].0);
                        assert(self.pairs()[b].0 == old_pairs[b].0);
                    }
                }
            },
            None => {
                proof {
                    lemma_map_of_push(self.pairs(), (key@, obj));
                    assert forall|j: int|
                        0 <= j < self.pairs().len() implies (#[trigger] self.pairs()[j]).0
                        != key@ by {
                        lemma_map_of_index(self.pairs(), j);
                    }
                }
                let entry = MemoryEntry { key: String::from_str(key), data, meta: metadata };
                let ghost old_pairs = self.pairs();
                self.entries.push(entry);
                proof {
                    assert(self.pairs() =~= old_pairs.push((key@, obj)));
                }
            },
        }
        Ok(())
    }

    fn get(&self, key: &str) -> (r: Result<(Vec<u8>, FileMetadata), ApiError>)
        ensures
            r is Ok <==> self.contents().dom().contains(key@),
            r matches Err(e) ==> e is FileNotFound,
    {
        match self.find(key) {
            Some(i) => {
                proof {
                    lemma_map_of_index(self.pairs(), i as int);
                }
                let entry = &self.entries[i];
                let mut data: Vec<u8> = Vec::new();
                data.extend_from_slice(entry.data.as_slice());
                proof {
                    assert(data@ =~= entry.data@);
                }
                Ok((data, entry.meta.clone()))
            },
            None => Err(ApiError::FileNotFound(String::from_str(key))),
        }
    }

    fn delete(&mut self, key: &str) -> (r: Result<(), ApiError>)
        ensures
            r is Ok <==> old(self).contents().dom().contains(key@),
            r matches Err(e) ==> e is FileNotFound,
            r is Err ==> final(self).contents() == old(self).contents(),
    {
        match self.find(key) {
            Some(i) => {
                proof {
                    lemma_map_of_index(self.pairs(), i as int);
                    lemma_map_of_remove(self.pairs(), i as int);
                }
                let ghost old_pairs = self.pairs();
                self.entries.remove(i);
                proof {
                    assert(self.pairs() =~= old_pairs.remove(i as int));
                }
                Ok(())
            },
            None => Err(ApiError::FileNotFound(String::from_str(key))),
        }
    }

    fn list(&self, prefix: Option<&str>) -> (r: Result<Vec<FileMetadata>, ApiError>)
        ensures
            r is Ok,
    {
        let ghost p = prefix_view(prefix);
        let mut out: Vec<FileMetadata> = Vec::new();
        let mut i: usize = 0;
        while i < self.entries.len()
            invariant
                self.inv(),
                0 <= i <= self.entries@.len(),
                forall|t: int|
                    0 <= t < out.deep_view().len() ==> exists|k: Seq<char>|
                        self.contents().dom().contains(k) && p.is_prefix_of(k)
                            && self.contents()[k].meta == #[trigger] out.deep_view()[t],
                forall|j: int|
                    0 <= j < i && p.is_prefix_of((#[trigger] self.pairs()[j]).0)
                        ==> out.deep_view().contains(self.pairs()[j].1.meta),
                p == prefix_view(prefix),
            decreases self.entries@.len() - i,
        {
            let keep = match prefix {
                Some(pre) => str_starts_with(self.entries[i].key.as_str(), pre),
                None => true,
            };
            proof {
                assert(self.pairs()[i as int].0 == self.entries@[i as int].key@);
                if prefix is None {
                    assert(p.is_prefix_of(self.entries@[i as int].key@));
                }
                if !keep {
                    assert(!p.is_prefix_of(self.pairs()[i as int].0));
                }
            }
            if keep {
                let ghost old_out = out.deep_view();
                out.push(self.entries[i].meta.clone());
                proof {
                    lemma_map_of_index(self.pairs(), i as int);
                    assert(out.deep_view() =~= old_out.push(self.pairs()[i as int].1.meta));
                    let k = self.pairs()[i as int].0;
                    assert(self.contents().dom().contains(k) && p.is_prefix_of(k)
                        && self.contents()[k].meta == out.deep_view()[out.deep_view().len() - 1]);
                    assert(out.deep_view().contains(self.pairs()[i as int].1.meta));
                    assert forall|x: MetaView| old_out.contains(x) implies out.deep_view().contains(
                        x,
                    ) by {
                        let t = choose|t: int| 0 <= t < old_out.len() && old_out[t] == x;
                        assert(out.deep_view()[t] == x);
                    }
                }
            }
            i += 1;
        }
        proof {
            assert forall|k: Seq<char>|
                #[trigger] self.contents().dom().contains(k) && p.is_prefix_of(
                    k,
                ) implies out.deep_view().contains(self.contents()[k].meta) by {
                lemma_map_of_dom_index(self.pairs(), k);
            }
        }
        Ok(out)
    }

    fn exists_key(&self, key: &str) -> (r: Result<bool, ApiError>)
        ensures
            r is Ok,
    {
        match self.find(key) {
            Some(i) => {
                proof {
                    lemma_map_of_index(self.pairs(), i as int);
                }
                Ok(true)
            },
            None => Ok(false),
        }
    }

    fn get_metadata(&self, key: &str) -> (r: Result<FileMetadata, ApiError>)
        ensures
            r is Ok <==> self.contents().dom().contains(key@),
            r matches Err(e) ==> e is FileNotFound,
    {
        match self.find(key) {
            Some(i) => {
                proof {
                    lemma_map_of_index(self.pairs(), i as int);
                }
                Ok(self.entries[i].meta.clone())
            },
            None => Err(ApiError::FileNotFound(String::from_str(key))),
        }
    }
}

} // verus!
