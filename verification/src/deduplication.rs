//! Content-addressed deduplication: each distinct byte sequence is stored
//! once, and later writes of the same bytes store only a placeholder record
//! that points at the canonical copy through the hash index.
//!
//! The check-then-act hazard of a shared index — two writers of the same
//! new content both observing "not indexed" and both storing full copies —
//! cannot arise here: a caller holds the manager exclusively for the whole
//! of `put_deduplicated`, so the lookup and the insert are one atomic step
//! of the manager's state. Callers wanting concurrent writers must
//! serialize them around that exclusive borrow.

use vstd::prelude::*;

use crate::error::ApiError;
use crate::kvmap::{assoc_get, assoc_insert, assoc_pairs, lemma_map_of_dom_len, map_of,
    unique_keys};
use crate::metadata::{FileMetadata, MetaView};
use crate::storage::{Storage, StoredObject};

verus! {

/// The SHA-256 digest of a byte sequence. The digest function itself lives
/// in the sha2 crate; the library only names its result.
pub uninterp spec fn sha256_of(data: Seq<u8>) -> Seq<u8>;

/// The lowercase hexadecimal character for a value below sixteen.
pub open spec fn hex_digit(n: u8) -> char {
    if n == 0 {
        '0'
    } else if n == 1 {
        '1'
    } else if n == 2 {
        '2'
    } else if n == 3 {
        '3'
    } else if n == 4 {
        '4'
    } else if n == 5 {
        '5'
    } else if n == 6 {
        '6'
    } else if n == 7 {
        '7'
    } else if n == 8 {
        '8'
    } else if n == 9 {
        '9'
    } else if n == 10 {
        'a'
    } else if n == 11 {
        'b'
    } else if n == 12 {
        'c'
    } else if n == 13 {
        'd'
    } else if n == 14 {
        'e'
    } else {
        'f'
    }
}

/// The lowercase hexadecimal rendering of a byte sequence: two digits per
/// byte, high digit first.
pub open spec fn hex_of(bytes: Seq<u8>) -> Seq<char> {
    Seq::new(
        bytes.len() * 2,
        |i: int|
            if i % 2 == 0 {
                hex_digit(bytes[i / 2] / 16)
            } else {
                hex_digit(bytes[i / 2] % 16)
            },
    )
}

/// The content address of a byte sequence: its SHA-256 digest in lowercase
/// hexadecimal.
pub open spec fn content_hash_of(data: Seq<u8>) -> Seq<char> {
    hex_of(sha256_of(data))
}

/// Relies on sha2's `Sha256` through the `Digest` trait: the 32-byte SHA-256
/// digest of the input, a function of the bytes alone.
#[verifier::external_body]
fn sha256_digest(data: &[u8]) -> (r: Vec<u8>)
    ensures
        r@ == sha256_of(data@),
        r@.len() == 32,
{
    let digest = <sha2::Sha256 as sha2::Digest>::digest(data);
    digest.to_vec()
}

/// Relies on hex::encode: exactly two lowercase hexadecimal digits per input
/// byte, high digit first.
#[verifier::external_body]
fn hex_encode(data: &[u8]) -> (r: String)
    ensures
        r@ == hex_of(data@),
{
    hex::encode(data)
}

/// Computes the content address of `data`: 64 lowercase hexadecimal
/// characters of SHA-256.
pub fn compute_hash(data: &[u8]) -> (r: String)
    ensures
        r@ == content_hash_of(data@),
        r@.len() == 64,
{
    let digest = sha256_digest(data);
    hex_encode(digest.as_slice())
}

/// Law: hashing is deterministic — the content address depends on the bytes
/// alone, so equal payloads always carry equal addresses, however often and
/// wherever they are hashed.
pub proof fn lemma_hash_deterministic(a: Seq<u8>, b: Seq<u8>)
    requires
        a == b,
    ensures
        content_hash_of(a) == content_hash_of(b),
{
}

/// Law: the deduplication invariant. Suppose bytes `data` were first stored
/// in full under key `a` (as `put_deduplicated` ensures on a put it reported
/// as not deduplicated: the backend gained the full payload under `a` and
/// the index learned `content_hash_of(data) -> a`), and the same bytes were
/// then stored under a different key `b` (as the same contract ensures on a
/// put it reported as deduplicated: the backend gained only a placeholder).
/// Then the placeholder under `b` is a reference, its target is `a`, and the
/// bytes resolved for `b` — which `get_deduplicated` returns for it — are
/// byte-equal to the bytes stored under `a`.
pub proof fn lemma_dedup_second_put_resolves(
    contents0: Map<Seq<char>, StoredObject>,
    index0: Map<Seq<char>, Seq<char>>,
    contents1: Map<Seq<char>, StoredObject>,
    index1: Map<Seq<char>, Seq<char>>,
    contents2: Map<Seq<char>, StoredObject>,
    data: Seq<u8>,
    m1: MetaView,
    m2: MetaView,
    a: Seq<char>,
    b: Seq<char>,
)
    requires
        a != b,
        m1.content_hash == Some(content_hash_of(data)),
        m2.content_hash == Some(content_hash_of(data)),
        contents1 == contents0.insert(a, StoredObject { data: data, meta: m1 }),
        index1 == index0.insert(content_hash_of(data), a),
        contents2 == contents1.insert(b, StoredObject { data: Seq::empty(), meta: m2 }),
    ensures
        follows_reference(contents2, index1, b),
        reference_target(contents2, index1, b) == a,
        contents2.dom().contains(a),
        contents2[reference_target(contents2, index1, b)].data == data,
        contents2[a].data == contents2[reference_target(contents2, index1, b)].data,
{
}

/// How many of a run of records carry a content hash and a positive size.
pub open spec fn hashed_record_count(s: Seq<MetaView>) -> int
    decreases s.len(),
{
    if s.len() == 0 {
        0
    } else {
        hashed_record_count(s.drop_last()) + if s.last().content_hash is Some && s.last().size
            > 0 {
            1int
        } else {
            0int
        }
    }
}

/// How many objects the deduplication index knows.
pub struct DeduplicationStats {
    pub unique_files: usize,
    pub total_hashes: usize,
}

/// Whether a stored object is a placeholder that points at a canonical copy
/// elsewhere: empty payload, a recorded hash, and an index entry for that
/// hash naming a different key.
pub open spec fn follows_reference(
    contents: Map<Seq<char>, StoredObject>,
    index: Map<Seq<char>, Seq<char>>,
    key: Seq<char>,
) -> bool {
    &&& contents[key].data.len() == 0
    &&& (match contents[key].meta.content_hash {
        Some(h) => index.dom().contains(h) && index[h] != key,
        None => false,
    })
}

/// The canonical key a placeholder points at.
pub open spec fn reference_target(
    contents: Map<Seq<char>, StoredObject>,
    index: Map<Seq<char>, Seq<char>>,
    key: Seq<char>,
) -> Seq<char> {
    match contents[key].meta.content_hash {
        Some(h) => index[h],
        None => Seq::empty(),
    }
}

/// The content-addressing layer over one backend: a hash index from content
/// address to the key that first stored those bytes, first writer wins.
pub struct DeduplicationManager<S: Storage> {
    index: Vec<(String, String)>,
    storage: S,
}

impl<S: Storage> DeduplicationManager<S> {
    /// The hash index as a map from content address to canonical key.
    pub closed spec fn hash_index(&self) -> Map<Seq<char>, Seq<char>> {
        map_of(assoc_pairs(self.index@))
    }

    /// The backend's contents.
    pub closed spec fn contents(&self) -> Map<Seq<char>, StoredObject> {
        self.storage.contents()
    }

    /// The manager's invariant: unique index keys over a well-formed backend.
    pub closed spec fn inv(&self) -> bool {
        &&& unique_keys(assoc_pairs(self.index@))
        &&& self.storage.inv()
    }

    /// A manager over `storage` with an empty index.
    pub fn new(storage: S) -> (r: Self)
        requires
            storage.inv(),
        ensures
            r.inv(),
            r.hash_index() == Map::<Seq<char>, Seq<char>>::empty(),
            r.contents() == storage.contents(),
    {
        let r = DeduplicationManager { index: Vec::new(), storage };
        proof {
            assert(assoc_pairs(r.index@) =~= Seq::empty());
        }
        r
    }

    /// Stores `data` under `key`, avoiding a second copy of bytes the index
    /// already knows.
    ///
    /// The returned record always carries the content address. When the
    /// index knows the address under a different canonical key, only a
    /// placeholder (empty payload) is stored and the first result is true;
    /// otherwise the full payload is stored, the index learns the address,
    /// and the first result is false. A backend failure leaves the index
    /// unchanged.
    pub fn put_deduplicated(&mut self, key: &str, data: Vec<u8>, metadata: FileMetadata) -> (r:
        Result<(bool, FileMetadata), ApiError>)
        requires
            old(self).inv(),
        ensures
            final(self).inv(),
            r matches Ok(p) ==> p.1@ == (MetaView {
                content_hash: Some(content_hash_of(data@)),
                ..metadata@
            }),
            r matches Ok(p) ==> (p.0 <==> old(self).hash_index().dom().contains(
                content_hash_of(data@),
            ) && old(self).hash_index()[content_hash_of(data@)] != key@),
            r matches Ok(p) && p.0 ==> {
                &&& old(self).hash_index().dom().contains(content_hash_of(data@))
                &&& old(self).hash_index()[content_hash_of(data@)] != key@
                &&& final(self).contents() == old(self).contents().insert(
                    key@,
                    StoredObject {
                        data: Seq::empty(),
                        meta: MetaView { content_hash: Some(content_hash_of(data@)), ..metadata@ },
                    },
                )
                &&& final(self).hash_index() == old(self).hash_index()
            },
            r matches Ok(p) && !p.0 ==> {
                &&& final(self).contents() == old(self).contents().insert(
                    key@,
                    StoredObject {
                        data: data@,
                        meta: MetaView { content_hash: Some(content_hash_of(data@)), ..metadata@ },
                    },
                )
                &&& final(self).hash_index() == old(self).hash_index().insert(
                    content_hash_of(data@),
                    key@,
                )
            },
            r is Err ==> final(self).hash_index() == old(self).hash_index(),
    {
        let hash = compute_hash(data.as_slice());
        let meta = metadata.with_hash(hash.clone());

        let mut canonical: Option<String> = None;
        match assoc_get(&self.index, hash.as_str()) {
            Some(existing_key) => {
                if !crate::text::str_eq(existing_key.as_str(), key) {
                    canonical = Some(existing_key.clone());
                }
            },
            None => {},
        }

        match canonical {
            Some(_) => {
                // The bytes are already stored: record only the placeholder.
                let placeholder: Vec<u8> = Vec::new();
                proof {
                    assert(placeholder@ =~= Seq::<u8>::empty());
                }
                match self.storage.put(key, placeholder, meta.clone()) {
                    Ok(()) => Ok((true, meta)),
                    Err(e) => Err(e),
                }
            },
            None => {
                match self.storage.put(key, data, meta.clone()) {
                    Ok(()) => {
                        assoc_insert(&mut self.index, hash, String::from_str(key));
                        Ok((false, meta))
                    },
                    Err(e) => Err(e),
                }
            },
        }
    }

    /// Reads `key`, following a placeholder to its canonical copy: the
    /// caller gets the canonical bytes paired with the placeholder's own
    /// record.
    pub fn get_deduplicated(&self, key: &str) -> (r: Result<(Vec<u8>, FileMetadata), ApiError>)
        requires
            self.inv(),
        ensures
            r matches Ok(p) ==> {
                &&& self.contents().dom().contains(key@)
                &&& p.1@ == self.contents()[key@].meta
                &&& if follows_reference(self.contents(), self.hash_index(), key@) {
                    &&& self.contents().dom().contains(
                        reference_target(self.contents(), self.hash_index(), key@),
                    )
                    &&& p.0@ == self.contents()[reference_target(
                        self.contents(),
                        self.hash_index(),
                        key@,
                    )].data
                } else {
                    p.0@ == self.contents()[key@].data
                }
            },
            r matches Err(e) && e is FileNotFound ==> !self.contents().dom().contains(key@) || (
            follows_reference(self.contents(), self.hash_index(), key@)
                && !self.contents().dom().contains(
                reference_target(self.contents(), self.hash_index(), key@),
            )),
    {
        let (data, metadata) = match self.storage.get(key) {
            Ok(p) => p,
            Err(e) => {
                return Err(e);
            },
        };

        if data.len() == 0 {
            if let Some(hash) = &metadata.content_hash {
                match assoc_get(&self.index, hash.as_str()) {
                    Some(original_key) => {
                        if !crate::text::str_eq(original_key.as_str(), key) {
                            match self.storage.get(original_key.as_str()) {
                                Ok((original_data, _)) => {
                                    return Ok((original_data, metadata));
                                },
                                Err(e) => {
                                    return Err(e);
                                },
                            }
                        }
                    },
                    None => {},
                }
            }
        }

        proof {
            assert(!follows_reference(self.contents(), self.hash_index(), key@));
        }
        Ok((data, metadata))
    }

    /// The keys the index knows for `hash`: the canonical key if the hash is
    /// indexed, nothing otherwise.
    pub fn find_duplicates(&self, hash: &str) -> (r: Result<Vec<String>, ApiError>)
        requires
            self.inv(),
        ensures
            r is Ok,
            r matches Ok(v) ==> if self.hash_index().dom().contains(hash@) {
                v.deep_view() == seq![self.hash_index()[hash@]]
            } else {
                v.deep_view() == Seq::<Seq<char>>::empty()
            },
    {
        let mut duplicates: Vec<String> = Vec::new();
        match assoc_get(&self.index, hash) {
            Some(k) => {
                duplicates.push(k.clone());
                proof {
                    assert(duplicates.deep_view() =~= seq![self.hash_index()[hash@]]);
                }
            },
            None => {
                proof {
                    assert(duplicates.deep_view() =~= Seq::<Seq<char>>::empty());
                }
            },
        }
        Ok(duplicates)
    }

    /// How many content addresses the index holds.
    pub fn get_stats(&self) -> (r: DeduplicationStats)
        requires
            self.inv(),
        ensures
            r.unique_files == self.hash_index().dom().len(),
            r.total_hashes == self.hash_index().dom().len(),
    {
        proof {
            lemma_map_of_dom_len(assoc_pairs(self.index@));
        }
        let n = self.index.len();
        DeduplicationStats { unique_files: n, total_hashes: n }
    }

    /// Rebuilds the index from the backend after a restart: every stored
    /// record that carries a content hash and a positive size is indexed,
    /// each binding points at such a record's file name, and the count of
    /// records walked into the index is returned.
    pub fn rebuild_index(&mut self) -> (r: Result<usize, ApiError>)
        requires
            old(self).inv(),
        ensures
            final(self).inv(),
            r matches Ok(n) ==> {
                &&& forall|h: Seq<char>|
                    #[trigger] final(self).hash_index().dom().contains(h) ==> exists|k: Seq<char>|
                        {
                            &&& #[trigger] old(self).contents().dom().contains(k)
                            &&& old(self).contents()[k].meta.content_hash == Some(h)
                            &&& old(self).contents()[k].meta.size > 0
                            &&& final(self).hash_index()[h] == old(
                                self,
                            ).contents()[k].meta.file_name
                        }
                &&& forall|k: Seq<char>|
                    #[trigger] old(self).contents().dom().contains(k) && old(
                        self,
                    ).contents()[k].meta.content_hash is Some && old(self).contents()[k].meta.size
                        > 0 ==> (match old(self).contents()[k].meta.content_hash {
                        Some(h) => final(self).hash_index().dom().contains(h),
                        None => true,
                    })
                &&& final(self).hash_index().dom().len() <= n
                &&& exists|listed: Seq<MetaView>|
                    #[trigger] crate::storage::is_listing(
                        old(self).contents(),
                        Seq::<char>::empty(),
                        listed,
                    ) && n == hashed_record_count(listed)
            },
            r is Err ==> final(self).hash_index() == old(self).hash_index(),
    {
        let files = match self.storage.list(None) {
            Ok(v) => v,
            Err(e) => {
                return Err(e);
            },
        };

        self.index = Vec::new();
        proof {
            assert(assoc_pairs(self.index@) =~= Seq::empty());
        }

        let ghost c0 = old(self).contents();
        let mut count: usize = 0;
        let mut i: usize = 0;
        proof {
            assert(files.deep_view().take(0) =~= Seq::<MetaView>::empty());
        }
        while i < files.len()
            invariant
                unique_keys(assoc_pairs(self.index@)),
                self.storage == old(self).storage,
                crate::storage::is_listing(c0, Seq::<char>::empty(), files.deep_view()),
                c0 == old(self).contents(),
                0 <= i <= files.len(),
                files.deep_view().len() == files@.len(),
                count <= i,
                count == hashed_record_count(files.deep_view().take(i as int)),
                self.index@.len() <= count,
                forall|h: Seq<char>|
                    #[trigger] map_of(assoc_pairs(self.index@)).dom().contains(h) ==> exists|
                        k: Seq<char>,
                    |
                        {
                            &&& #[trigger] c0.dom().contains(k)
                            &&& c0[k].meta.content_hash == Some(h)
                            &&& c0[k].meta.size > 0
                            &&& map_of(assoc_pairs(self.index@))[h] == c0[k].meta.file_name
                        },
                forall|j: int|
                    0 <= j < i && (#[trigger] files.deep_view()[j]).content_hash is Some
                        && files.deep_view()[j].size > 0 ==> (match files.deep_view()[
                        j
                    ].content_hash {
                        Some(h) => map_of(assoc_pairs(self.index@)).dom().contains(h),
                        None => true,
                    }),
            decreases files.len() - i,
        {
            proof {
                assert(files.deep_view().take(i + 1 as int).drop_last() =~= files.deep_view().take(
                    i as int,
                ));
                assert(files.deep_view().take(i + 1 as int).last() == files.deep_view()[i as int]);
            }
            let has_hash = files[i].content_hash.is_some();
            if has_hash && files[i].size > 0 {
                let hash = match &files[i].content_hash {
                    Some(h) => h.clone(),
                    None => String::new(),
                };
                let ghost pre = map_of(assoc_pairs(self.index@));
                assoc_insert(&mut self.index, hash.clone(), files[i].file_name.clone());
                count += 1;
                proof {
                    let vm = files.deep_view()[i as int];
                    let kw = choose|k: Seq<char>|
                        c0.dom().contains(k) && Seq::<char>::empty().is_prefix_of(k) && c0[k].meta
                            == vm;
                    assert(c0.dom().contains(kw) && c0[kw].meta.content_hash == Some(hash@)
                        && c0[kw].meta.size > 0 && map_of(assoc_pairs(self.index@))[hash@]
                        == c0[kw].meta.file_name);
                    assert forall|h: Seq<char>|
                        #[trigger] map_of(assoc_pairs(self.index@)).dom().contains(h) && h != hash@
                            implies pre.dom().contains(h) && map_of(assoc_pairs(self.index@))[h]
                        == pre[h] by {}
                }
            }
            i += 1;
        }

        proof {
            assert(files.deep_view().take(files@.len() as int) =~= files.deep_view());
            assert(crate::storage::is_listing(c0, Seq::<char>::empty(), files.deep_view())
                && count as int == hashed_record_count(files.deep_view()));
            lemma_map_of_dom_len(assoc_pairs(self.index@));
            assert forall|k: Seq<char>|
                #[trigger] c0.dom().contains(k) && c0[k].meta.content_hash is Some
                    && c0[k].meta.size > 0 implies (match c0[k].meta.content_hash {
                Some(h) => map_of(assoc_pairs(self.index@)).dom().contains(h),
                None => true,
            }) by {
                assert(Seq::<char>::empty().is_prefix_of(k));
                assert(files.deep_view().contains(c0[k].meta));
                let j = choose|j: int|
                    0 <= j < files.deep_view().len() && files.deep_view()[j] == c0[k].meta;
            }
        }
        Ok(count)
    }
}

} // verus!
