//! Linear version histories per key.
//!
//! Every version is stored under the synthetic key
//! `"{key}.v{version}.{version_id}"`; the plain key holds an empty-payload
//! "latest" marker carrying the newest record. That string shape is
//! load-bearing: the prefix scan of `list_versions` depends on it.

use vstd::prelude::*;

use crate::error::ApiError;
use crate::metadata::{FileMetadata, MetaView};
use crate::storage::{Storage, StoredObject};
use crate::text::{dec_digits, str_eq, u32_to_dec};

verus! {

/// The synthetic key one version of `key` is stored under.
pub open spec fn version_key_view(key: Seq<char>, version: u32, vid: Seq<char>) -> Seq<char> {
    key + ".v"@ + dec_digits(version as nat) + "."@ + vid
}

/// The key a record is stored under: the synthetic versioned key when the
/// record carries a version identifier, the plain key otherwise.
pub open spec fn meta_version_key(key: Seq<char>, m: MetaView) -> Seq<char> {
    match m.version_id {
        Some(vid) => version_key_view(key, m.version, vid),
        None => key,
    }
}

/// The prefix every versioned key of `key` carries.
pub open spec fn version_prefix(key: Seq<char>) -> Seq<char> {
    key + "."@
}

/// Whether `vm` is a version record of `key` in the backend: stored under a
/// key carrying the version prefix, and itself carrying a version
/// identifier.
pub open spec fn is_version_record(
    contents: Map<Seq<char>, StoredObject>,
    key: Seq<char>,
    vm: MetaView,
) -> bool {
    &&& vm.version_id is Some
    &&& exists|k: Seq<char>|
        #[trigger] contents.dom().contains(k) && version_prefix(key).is_prefix_of(k)
            && contents[k].meta == vm
}

/// What a version listing must hold: version records of `key` and nothing
/// else, and all of them.
pub open spec fn is_version_listing(
    contents: Map<Seq<char>, StoredObject>,
    key: Seq<char>,
    out: Seq<MetaView>,
) -> bool {
    &&& forall|i: int| 0 <= i < out.len() ==> is_version_record(contents, key, #[trigger] out[i])
    &&& forall|k: Seq<char>|
        #[trigger] contents.dom().contains(k) && version_prefix(key).is_prefix_of(k)
            && contents[k].meta.version_id is Some ==> out.contains(contents[k].meta)
}

/// Newest first.
pub open spec fn sorted_by_version_desc(s: Seq<MetaView>) -> bool {
    forall|i: int, j: int|
        0 <= i < j < s.len() ==> (#[trigger] s[i]).version >= (#[trigger] s[j]).version
}

/// Reorders records newest-version-first, keeping exactly the same records.
fn sort_by_version_desc(v: Vec<FileMetadata>) -> (r: Vec<FileMetadata>)
    ensures
        sorted_by_version_desc(r.deep_view()),
        r.deep_view().to_multiset() == v.deep_view().to_multiset(),
{
    broadcast use vstd::seq_lib::group_to_multiset_ensures;
    broadcast use vstd::multiset::group_multiset_axioms;

    let ghost orig = v.deep_view().to_multiset();
    let mut rest = v;
    let mut out: Vec<FileMetadata> = Vec::new();
    while rest.len() > 0
        invariant
            sorted_by_version_desc(out.deep_view()),
            forall|i: int, j: int|
                0 <= i < out.deep_view().len() && 0 <= j < rest.deep_view().len() ==> (
                #[trigger] out.deep_view()[i]).version >= (#[trigger] rest.deep_view()[j]).version,
            out.deep_view().to_multiset().add(rest.deep_view().to_multiset()) == orig,
        decreases rest.len(),
    {
        let mut best: usize = 0;
        let mut i: usize = 1;
        while i < rest.len()
            invariant
                0 <= best < rest.len(),
                best < i <= rest.len(),
                forall|j: int|
                    0 <= j < i ==> (#[trigger] rest.deep_view()[j]).version <= rest.deep_view()[
                        best as int
                    ].version,
            decreases rest.len() - i,
        {
            if rest[i].version > rest[best].version {
                best = i;
            }
            i += 1;
        }
        let ghost old_rest = rest.deep_view();
        let ghost old_out = out.deep_view();
        let picked = rest.remove(best);
        out.push(picked);
        proof {
            broadcast use vstd::seq_lib::group_to_multiset_ensures;
            broadcast use vstd::multiset::group_multiset_axioms;

            assert(rest.deep_view() =~= old_rest.remove(best as int));
            assert(out.deep_view() =~= old_out.push(picked@));
            assert(picked@ == old_rest[best as int]);
            assert(old_rest.remove(best as int).to_multiset() =~= old_rest.to_multiset().remove(
                old_rest[best as int],
            ));
            assert(old_out.push(picked@).to_multiset() =~= old_out.to_multiset().insert(picked@));
            assert(rest.deep_view().to_multiset() =~= old_rest.to_multiset().remove(picked@));
            assert(out.deep_view().to_multiset() =~= old_out.to_multiset().insert(picked@));
            assert(old_rest.contains(picked@));
            assert(old_rest.to_multiset().count(picked@) > 0);
            assert(out.deep_view().to_multiset().add(rest.deep_view().to_multiset()) =~= orig);
        }
    }
    out
}

/// The append-only version history service over one backend.
pub struct VersioningService<S: Storage> {
    storage: S,
}

impl<S: Storage> VersioningService<S> {
    /// The backend's contents.
    pub closed spec fn contents(&self) -> Map<Seq<char>, StoredObject> {
        self.storage.contents()
    }

    /// The service's invariant: the backend's own.
    pub closed spec fn inv(&self) -> bool {
        self.storage.inv()
    }

    /// A versioning service over `storage`.
    pub fn new(storage: S) -> (r: Self)
        requires
            storage.inv(),
        ensures
            r.inv(),
            r.contents() == storage.contents(),
    {
        VersioningService { storage }
    }

    /// The storage key for one version of `key`: the synthetic versioned key
    /// when the record carries a version identifier, the plain key
    /// otherwise.
    pub fn get_version_key(&self, key: &str, metadata: &FileMetadata) -> (r: String)
        ensures
            r@ == meta_version_key(key@, metadata@),
    {
        match &metadata.version_id {
            Some(vid) => {
                let mut s = String::from_str(key);
                s.append(".v");
                let num = u32_to_dec(metadata.version);
                s.append(num.as_str());
                s.append(".");
                s.append(vid.as_str());
                proof {
                    assert(s@ =~= version_key_view(key@, metadata@.version, vid@));
                }
                s
            },
            None => String::from_str(key),
        }
    }

    /// Appends a new version of `key`: derives the successor record from
    /// `base_metadata`, stores the payload under the versioned key, then
    /// overwrites the plain key with an empty-payload "latest" marker
    /// carrying the new record.
    ///
    /// The two writes are separate backend calls with no rollback, and a
    /// failure surfaces as recoverable by retry: on an error the backend
    /// holds the old state, or the old state plus the fresh version record,
    /// or both the record and the new latest marker — never anything else,
    /// so the call can simply be repeated.
    pub fn create_version(&mut self, key: &str, data: Vec<u8>, base_metadata: &FileMetadata) -> (r:
        Result<FileMetadata, ApiError>)
        requires
            old(self).inv(),
            base_metadata@.version < u32::MAX,
        ensures
            final(self).inv(),
            r is Err ==> exists|nm: MetaView|
                #![trigger meta_version_key(key@, nm)]
                {
                    &&& nm.version == base_metadata@.version + 1
                    &&& nm.parent_version_id == base_metadata@.version_id
                    &&& nm.version_id is Some
                    &&& {
                        ||| final(self).contents() == old(self).contents()
                        ||| final(self).contents() == old(self).contents().insert(
                            meta_version_key(key@, nm),
                            StoredObject { data: data@, meta: nm },
                        )
                        ||| final(self).contents() == old(self).contents().insert(
                            meta_version_key(key@, nm),
                            StoredObject { data: data@, meta: nm },
                        ).insert(key@, StoredObject { data: Seq::empty(), meta: nm })
                    }
                },
            r matches Ok(nm) ==> {
                &&& nm@.version == base_metadata@.version + 1
                &&& nm@.parent_version_id == base_metadata@.version_id
                &&& nm@.version_id is Some
                &&& nm@.file_name == base_metadata@.file_name
                &&& nm@.size == base_metadata@.size
                &&& !nm@.is_deleted
                &&& final(self).contents() == old(self).contents().insert(
                    meta_version_key(key@, nm@),
                    StoredObject { data: data@, meta: nm@ },
                ).insert(key@, StoredObject { data: Seq::empty(), meta: nm@ })
            },
    {
        let new_metadata = base_metadata.create_new_version();

        let version_key = self.get_version_key(key, &new_metadata);
        match self.storage.put(version_key.as_str(), data, new_metadata.clone()) {
            Ok(()) => {},
            Err(e) => {
                return Err(e);
            },
        }

        let marker: Vec<u8> = Vec::new();
        proof {
            assert(marker@ =~= Seq::<u8>::empty());
        }
        match self.storage.put(key, marker, new_metadata.clone()) {
            Ok(()) => {},
            Err(e) => {
                return Err(e);
            },
        }

        Ok(new_metadata)
    }

    /// Every version record of `key`, newest first.
    pub fn list_versions(&self, key: &str) -> (r: Result<Vec<FileMetadata>, ApiError>)
        requires
            self.inv(),
        ensures
            r matches Ok(v) ==> is_version_listing(self.contents(), key@, v.deep_view())
                && sorted_by_version_desc(v.deep_view()),
            r matches Err(e) ==> !(e is NotFound),
    {
        let ghost p = version_prefix(key@);
        let mut prefix = String::from_str(key);
        prefix.append(".");

        let all = match self.storage.list(Some(prefix.as_str())) {
            Ok(v) => v,
            Err(e) => {
                return Err(e);
            },
        };

        let mut filtered: Vec<FileMetadata> = Vec::new();
        let mut i: usize = 0;
        while i < all.len()
            invariant
                0 <= i <= all.deep_view().len(),
                all.deep_view().len() == all@.len(),
                crate::storage::is_listing(self.contents(), p, all.deep_view()),
                forall|t: int|
                    0 <= t < filtered.deep_view().len() ==> is_version_record(
                        self.contents(),
                        key@,
                        #[trigger] filtered.deep_view()[t],
                    ),
                forall|j: int|
                    0 <= j < i && (#[trigger] all.deep_view()[j]).version_id is Some
                        ==> filtered.deep_view().contains(all.deep_view()[j]),
                p == version_prefix(key@),
            decreases all@.len() - i,
        {
            if all[i].version_id.is_some() {
                let ghost old_filtered = filtered.deep_view();
                filtered.push(all[i].clone());
                proof {
                    assert(filtered.deep_view() =~= old_filtered.push(all.deep_view()[i as int]));
                    assert(filtered.deep_view()[old_filtered.len() as int] == all.deep_view()[
                        i as int
                    ]);
                    assert(filtered.deep_view().contains(all.deep_view()[i as int]));
                    assert forall|x: MetaView| old_filtered.contains(
                        x,
                    ) implies filtered.deep_view().contains(x) by {
                        let t = choose|t: int| 0 <= t < old_filtered.len() && old_filtered[t] == x;
                        assert(filtered.deep_view()[t] == x);
                    }
                }
            }
            i += 1;
        }

        let sorted = sort_by_version_desc(filtered);
        proof {
            broadcast use vstd::seq_lib::group_to_multiset_ensures;

            assert forall|x: MetaView| sorted.deep_view().contains(x)
                == filtered.deep_view().contains(x) by {
                vstd::seq_lib::to_multiset_contains(sorted.deep_view(), x);
                vstd::seq_lib::to_multiset_contains(filtered.deep_view(), x);
            }
            assert forall|t: int| 0 <= t < sorted.deep_view().len() implies is_version_record(
                self.contents(),
                key@,
                #[trigger] sorted.deep_view()[t],
            ) by {
                assert(sorted.deep_view().contains(sorted.deep_view()[t]));
                let u = choose|u: int|
                    0 <= u < filtered.deep_view().len() && filtered.deep_view()[u]
                        == sorted.deep_view()[t];
            }
            assert forall|k: Seq<char>|
                #[trigger] self.contents().dom().contains(k) && version_prefix(key@).is_prefix_of(
                    k,
                ) && self.contents()[k].meta.version_id is Some implies sorted.deep_view().contains(
                self.contents()[k].meta,
            ) by {
                assert(all.deep_view().contains(self.contents()[k].meta));
                let j = choose|j: int|
                    0 <= j < all.deep_view().len() && all.deep_view()[j] == self.contents()[k].meta;
                assert(filtered.deep_view().contains(all.deep_view()[j]));
            }
        }
        Ok(sorted)
    }

    /// The payload and record of the version of `key` whose identifier is
    /// `version_id`; `NotFound` exactly when no version record of `key`
    /// carries that identifier.
    pub fn get_version(&self, key: &str, version_id: &str) -> (r: Result<
        (Vec<u8>, FileMetadata),
        ApiError,
    >)
        requires
            self.inv(),
        ensures
            r matches Ok(pr) ==> exists|vm: MetaView|
                {
                    &&& #[trigger] is_version_record(self.contents(), key@, vm)
                    &&& vm.version_id == Some(version_id@)
                    &&& self.contents().dom().contains(meta_version_key(key@, vm))
                    &&& pr.0@ == self.contents()[meta_version_key(key@, vm)].data
                    &&& pr.1@ == self.contents()[meta_version_key(key@, vm)].meta
                },
            r matches Err(e) && e is NotFound ==> forall|vm: MetaView|
                #[trigger] is_version_record(self.contents(), key@, vm) ==> vm.version_id != Some(
                    version_id@,
                ),
    {
        let versions = match self.list_versions(key) {
            Ok(v) => v,
            Err(e) => {
                return Err(e);
            },
        };

        let mut i: usize = 0;
        while i < versions.len()
            invariant
                self.inv(),
                0 <= i <= versions.deep_view().len(),
                versions.deep_view().len() == versions@.len(),
                is_version_listing(self.contents(), key@, versions.deep_view()),
                forall|t: int|
                    0 <= t < i ==> (#[trigger] versions.deep_view()[t]).version_id != Some(
                        version_id@,
                    ),
            decreases versions@.len() - i,
        {
            let hit = match &versions[i].version_id {
                Some(s) => str_eq(s.as_str(), version_id),
                None => false,
            };
            if hit {
                let version_key = self.get_version_key(key, &versions[i]);
                match self.storage.get(version_key.as_str()) {
                    Ok(pr) => {
                        proof {
                            let vm = versions.deep_view()[i as int];
                            assert(is_version_record(self.contents(), key@, vm)
                                && vm.version_id == Some(version_id@)
                                && self.contents().dom().contains(meta_version_key(key@, vm)));
                        }
                        return Ok(pr);
                    },
                    Err(e) => {
                        return Err(e);
                    },
                }
            }
            i += 1;
        }

        proof {
            assert forall|vm: MetaView|
                #[trigger] is_version_record(self.contents(), key@, vm) implies vm.version_id
                != Some(version_id@) by {
                let k = choose|k: Seq<char>|
                    #[trigger] self.contents().dom().contains(k) && version_prefix(
                        key@,
                    ).is_prefix_of(k) && self.contents()[k].meta == vm;
                assert(versions.deep_view().contains(vm));
                let t = choose|t: int|
                    0 <= t < versions.deep_view().len() && versions.deep_view()[t] == vm;
            }
        }
        let mut msg = String::from_str("Version ");
        msg.append(version_id);
        msg.append(" not found for file ");
        msg.append(key);
        Err(ApiError::NotFound(msg))
    }

    /// Marks one version of `key` deleted in place: the version record is
    /// rewritten with its payload kept and its deletion flag set; `NotFound`
    /// exactly when no version record of `key` carries the identifier, and
    /// then nothing is written.
    pub fn delete_version(&mut self, key: &str, version_id: &str) -> (r: Result<(), ApiError>)
        requires
            old(self).inv(),
        ensures
            final(self).inv(),
            r matches Err(e) && e is NotFound ==> (forall|vm: MetaView|
                #[trigger] is_version_record(old(self).contents(), key@, vm) ==> vm.version_id
                    != Some(version_id@)) && final(self).contents() == old(self).contents(),
            r is Ok ==> exists|vm: MetaView, t: i64|
                #![trigger deleted_at_time(old(self).contents()[meta_version_key(key@, vm)].meta, t)]
                {
                    &&& is_version_record(old(self).contents(), key@, vm)
                    &&& vm.version_id == Some(version_id@)
                    &&& old(self).contents().dom().contains(meta_version_key(key@, vm))
                    &&& final(self).contents() == old(self).contents().insert(
                        meta_version_key(
                            key@,
                            deleted_at_time(
                                old(self).contents()[meta_version_key(key@, vm)].meta,
                                t,
                            ),
                        ),
                        StoredObject {
                            data: old(self).contents()[meta_version_key(key@, vm)].data,
                            meta: deleted_at_time(
                                old(self).contents()[meta_version_key(key@, vm)].meta,
                                t,
                            ),
                        },
                    )
                },
    {
        let (data, mut metadata) = match self.get_version(key, version_id) {
            Ok(p) => p,
            Err(e) => {
                return Err(e);
            },
        };
        let ghost c0 = old(self).contents();
        let ghost dbytes = data@;
        let ghost fetched = metadata@;
        let ghost vmw = choose|vm: MetaView|
            {
                &&& #[trigger] is_version_record(c0, key@, vm)
                &&& vm.version_id == Some(version_id@)
                &&& c0.dom().contains(meta_version_key(key@, vm))
                &&& dbytes == c0[meta_version_key(key@, vm)].data
                &&& fetched == c0[meta_version_key(key@, vm)].meta
            };

        metadata.soft_delete();
        let ghost stamp = metadata@.updated_at;
        proof {
            assert(metadata@ == deleted_at_time(fetched, stamp));
        }

        let version_key = self.get_version_key(key, &metadata);
        match self.storage.put(version_key.as_str(), data, metadata) {
            Ok(()) => {
                proof {
                    assert(deleted_at_time(c0[meta_version_key(key@, vmw)].meta, stamp)
                        == deleted_at_time(fetched, stamp));
                }
                Ok(())
            },
            Err(e) => Err(e),
        }
    }

    /// Restores the version of `key` named by `version_id` as a brand-new
    /// latest version: history moves forward, never rewinds — the new
    /// version's number is one above the current latest, and its payload is
    /// the restored version's bytes.
    pub fn restore_version(&mut self, key: &str, version_id: &str) -> (r: Result<
        FileMetadata,
        ApiError,
    >)
        requires
            old(self).inv(),
        ensures
            final(self).inv(),
            r matches Ok(nm) ==> {
                &&& old(self).contents().dom().contains(key@)
                &&& nm@.version == old(self).contents()[key@].meta.version + 1
                &&& nm@.parent_version_id == old(self).contents()[key@].meta.version_id
                &&& nm@.version_id is Some
                &&& exists|vm: MetaView|
                    {
                        &&& #[trigger] is_version_record(old(self).contents(), key@, vm)
                        &&& vm.version_id == Some(version_id@)
                        &&& old(self).contents().dom().contains(meta_version_key(key@, vm))
                        &&& final(self).contents() == old(self).contents().insert(
                            meta_version_key(key@, nm@),
                            StoredObject {
                                data: old(self).contents()[meta_version_key(key@, vm)].data,
                                meta: nm@,
                            },
                        ).insert(key@, StoredObject { data: Seq::empty(), meta: nm@ })
                    }
            },
    {
        let (data, _old_metadata) = match self.get_version(key, version_id) {
            Ok(p) => p,
            Err(e) => {
                return Err(e);
            },
        };

        let (_, current_metadata) = match self.storage.get(key) {
            Ok(p) => p,
            Err(e) => {
                return Err(e);
            },
        };

        if current_metadata.version == u32::MAX {
            return Err(
                ApiError::InvalidMetadata(String::from_str("version counter exhausted")),
            );
        }

        self.create_version(key, data, &current_metadata)
    }

    /// The newest usable state of `key`: the plain record when it is not
    /// soft-deleted, otherwise the newest version record that is not. A
    /// backend failure on the plain read surfaces wrapped; only a truly
    /// missing or soft-deleted plain record sends the scan to the versions.
    pub fn get_latest_version(&self, key: &str) -> (r: Result<(Vec<u8>, FileMetadata), ApiError>)
        requires
            self.inv(),
        ensures
            self.contents().dom().contains(key@) && !self.contents()[key@].meta.is_deleted ==> (
            r matches Ok(pr) ==> pr.0@ == self.contents()[key@].data && pr.1@ == self.contents()[
                key@
            ].meta),
            r matches Ok(pr) ==> {
                ||| {
                    &&& self.contents().dom().contains(key@)
                    &&& !self.contents()[key@].meta.is_deleted
                    &&& pr.0@ == self.contents()[key@].data
                    &&& pr.1@ == self.contents()[key@].meta
                }
                ||| exists|vm: MetaView|
                    {
                        &&& #[trigger] is_version_record(self.contents(), key@, vm)
                        &&& !vm.is_deleted
                        &&& self.contents().dom().contains(meta_version_key(key@, vm))
                        &&& pr.0@ == self.contents()[meta_version_key(key@, vm)].data
                        &&& pr.1@ == self.contents()[meta_version_key(key@, vm)].meta
                        &&& forall|w: MetaView|
                            #[trigger] is_version_record(self.contents(), key@, w)
                                && !w.is_deleted ==> w.version <= vm.version
                    }
            },
            r matches Err(e) && e is NotFound ==> (forall|w: MetaView|
                #[trigger] is_version_record(self.contents(), key@, w) ==> w.is_deleted) && !(
            self.contents().dom().contains(key@) && !self.contents()[key@].meta.is_deleted),
    {
        match self.storage.get(key) {
            Ok((data, metadata)) => {
                if !metadata.is_deleted {
                    return Ok((data, metadata));
                }
            },
            Err(e) => {
                match &e {
                    ApiError::FileNotFound(_) => {},
                    _ => {
                        return Err(e);
                    },
                }
            },
        }

        let versions = match self.list_versions(key) {
            Ok(v) => v,
            Err(e) => {
                return Err(e);
            },
        };

        let mut i: usize = 0;
        while i < versions.len()
            invariant
                self.inv(),
                0 <= i <= versions.deep_view().len(),
                versions.deep_view().len() == versions@.len(),
                is_version_listing(self.contents(), key@, versions.deep_view()),
                sorted_by_version_desc(versions.deep_view()),
                self.contents().dom().contains(key@) ==> self.contents()[key@].meta.is_deleted,
                forall|t: int| 0 <= t < i ==> (#[trigger] versions.deep_view()[t]).is_deleted,
            decreases versions@.len() - i,
        {
            if !versions[i].is_deleted {
                let version_key = self.get_version_key(key, &versions[i]);
                match self.storage.get(version_key.as_str()) {
                    Ok(pr) => {
                        proof {
                            let vm = versions.deep_view()[i as int];
                            assert forall|w: MetaView|
                                #[trigger] is_version_record(self.contents(), key@, w)
                                    && !w.is_deleted implies w.version <= vm.version by {
                                assert(versions.deep_view().contains(w));
                                let t = choose|t: int|
                                    0 <= t < versions.deep_view().len() && versions.deep_view()[t]
                                        == w;
                            }
                        }
                        return Ok(pr);
                    },
                    Err(e) => {
                        return Err(e);
                    },
                }
            }
            i += 1;
        }

        proof {
            assert forall|w: MetaView|
                #[trigger] is_version_record(self.contents(), key@, w) implies w.is_deleted by {
                assert(versions.deep_view().contains(w));
                let t = choose|t: int|
                    0 <= t < versions.deep_view().len() && versions.deep_view()[t] == w;
            }
        }
        let mut msg = String::from_str("No valid version found for ");
        msg.append(key);
        Err(ApiError::NotFound(msg))
    }
}

/// The record `m` with its deletion flag set at time `t`.
pub open spec fn deleted_at_time(m: MetaView, t: i64) -> MetaView {
    MetaView { is_deleted: true, deleted_at: Some(t), updated_at: t, ..m }
}

} // verus!
