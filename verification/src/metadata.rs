//! The metadata record that accompanies every stored object, and the filter
//! predicate used when listings are narrowed.
//!
//! Timestamps are whole seconds since the Unix epoch; identifiers are the
//! 36-character hyphenated text form; the open key-value document is a list
//! of string pairs looked up first-match-wins.

use vstd::prelude::*;

use crate::clock;
use crate::ids;
use crate::text::{seq_contains_sub, str_contains_sub, str_eq};

verus! {

/// The mathematical value of a [`FileMetadata`] record.
pub ghost struct MetaView {
    pub file_name: Seq<char>,
    pub content_type: Option<Seq<char>>,
    pub size: u64,
    pub created_at: i64,
    pub updated_at: i64,
    pub custom: Seq<(Seq<char>, Seq<char>)>,
    pub version: u32,
    pub version_id: Option<Seq<char>>,
    pub parent_version_id: Option<Seq<char>>,
    pub tags: Seq<Seq<char>>,
    pub is_deleted: bool,
    pub deleted_at: Option<i64>,
    pub content_hash: Option<Seq<char>>,
}

impl MetaView {
    /// The record invariant: versions count from 1, and the deletion
    /// timestamp is present exactly on soft-deleted records.
    pub open spec fn wf(self) -> bool {
        &&& self.version >= 1
        &&& (self.is_deleted <==> self.deleted_at is Some)
    }
}

/// One logical object version: the descriptive record stored beside a payload.
pub struct FileMetadata {
    pub file_name: String,
    pub content_type: Option<String>,
    pub size: u64,
    pub created_at: i64,
    pub updated_at: i64,
    pub custom: Vec<(String, String)>,
    pub version: u32,
    pub version_id: Option<String>,
    pub parent_version_id: Option<String>,
    pub tags: Vec<String>,
    pub is_deleted: bool,
    pub deleted_at: Option<i64>,
    pub content_hash: Option<String>,
}

impl View for FileMetadata {
    type V = MetaView;

    open spec fn view(&self) -> MetaView {
        MetaView {
            file_name: self.file_name@,
            content_type: self.content_type.deep_view(),
            size: self.size,
            created_at: self.created_at,
            updated_at: self.updated_at,
            custom: self.custom.deep_view(),
            version: self.version,
            version_id: self.version_id.deep_view(),
            parent_version_id: self.parent_version_id.deep_view(),
            tags: self.tags.deep_view(),
            is_deleted: self.is_deleted,
            deleted_at: self.deleted_at,
            content_hash: self.content_hash.deep_view(),
        }
    }
}

impl DeepView for FileMetadata {
    type V = MetaView;

    open spec fn deep_view(&self) -> MetaView {
        self.view()
    }
}

/// Copies every pair of an open key-value document.
fn clone_pairs(pairs: &Vec<(String, String)>) -> (r: Vec<(String, String)>)
    ensures
        r.deep_view() == pairs.deep_view(),
{
    let mut out: Vec<(String, String)> = Vec::new();
    let mut i: usize = 0;
    while i < pairs.len()
        invariant
            0 <= i <= pairs.len(),
            out.len() == i,
            forall|j: int| 0 <= j < i ==> out.deep_view()[j] == pairs.deep_view()[j],
        decreases pairs.len() - i,
    {
        let key = pairs[i].0.clone();
        let val = pairs[i].1.clone();
        out.push((key, val));
        i += 1;
    }
    proof {
        assert(out.deep_view() =~= pairs.deep_view());
    }
    out
}

/// Copies every string of a list.
fn clone_strings(list: &Vec<String>) -> (r: Vec<String>)
    ensures
        r.deep_view() == list.deep_view(),
{
    let mut out: Vec<String> = Vec::new();
    let mut i: usize = 0;
    while i < list.len()
        invariant
            0 <= i <= list.len(),
            out.len() == i,
            forall|j: int| 0 <= j < i ==> out.deep_view()[j] == list.deep_view()[j],
        decreases list.len() - i,
    {
        out.push(list[i].clone());
        i += 1;
    }
    proof {
        assert(out.deep_view() =~= list.deep_view());
    }
    out
}

impl Clone for FileMetadata {
    /// A clone carries exactly the same record value.
    fn clone(&self) -> (r: Self)
        ensures
            r@ == self@,
    {
        let r = FileMetadata {
            file_name: self.file_name.clone(),
            content_type: self.content_type.clone(),
            size: self.size,
            created_at: self.created_at,
            updated_at: self.updated_at,
            custom: clone_pairs(&self.custom),
            version: self.version,
            version_id: self.version_id.clone(),
            parent_version_id: self.parent_version_id.clone(),
            tags: clone_strings(&self.tags),
            is_deleted: self.is_deleted,
            deleted_at: self.deleted_at,
            content_hash: self.content_hash.clone(),
        };
        r
    }
}

impl FileMetadata {
    /// A fresh record for the first write to a key: version 1, a fresh
    /// version identifier, no parent, and no deletion or hash state.
    pub fn new(file_name: String, size: u64) -> (r: Self)
        ensures
            r@.file_name == file_name@,
            r@.content_type is None,
            r@.size == size,
            r@.created_at == r@.updated_at,
            r@.custom == Seq::<(Seq<char>, Seq<char>)>::empty(),
            r@.version == 1,
            r@.version_id is Some,
            r@.parent_version_id is None,
            r@.tags == Seq::<Seq<char>>::empty(),
            r@.is_deleted == false,
            r@.deleted_at is None,
            r@.content_hash is None,
            r@.wf(),
    {
        let now = clock::now_seconds();
        let r = FileMetadata {
            file_name,
            content_type: None,
            size,
            created_at: now,
            updated_at: now,
            custom: Vec::new(),
            version: 1,
            version_id: Some(ids::new_id()),
            parent_version_id: None,
            tags: Vec::new(),
            is_deleted: false,
            deleted_at: None,
            content_hash: None,
        };
        proof {
            assert(r@.custom =~= Seq::<(Seq<char>, Seq<char>)>::empty());
            assert(r@.tags =~= Seq::<Seq<char>>::empty());
        }
        r
    }

    /// The same record with a content type set.
    pub fn with_content_type(self, content_type: String) -> (r: Self)
        ensures
            r@ == (MetaView { content_type: Some(content_type@), ..self@ }),
    {
        FileMetadata { content_type: Some(content_type), ..self }
    }

    /// The same record with the open key-value document replaced.
    pub fn with_custom(self, custom: Vec<(String, String)>) -> (r: Self)
        ensures
            r@ == (MetaView { custom: custom.deep_view(), ..self@ }),
    {
        FileMetadata { custom, ..self }
    }

    /// The same record with the tag set replaced.
    pub fn with_tags(self, tags: Vec<String>) -> (r: Self)
        ensures
            r@ == (MetaView { tags: tags.deep_view(), ..self@ }),
    {
        FileMetadata { tags, ..self }
    }

    /// The same record with a content hash set.
    pub fn with_hash(self, hash: String) -> (r: Self)
        ensures
            r@ == (MetaView { content_hash: Some(hash@), ..self@ }),
    {
        FileMetadata { content_hash: Some(hash), ..self }
    }

    /// The successor record in this record's version chain: the version is
    /// one higher, a fresh version identifier is drawn, and this record's
    /// identifier becomes the parent.
    pub fn create_new_version(&self) -> (r: Self)
        requires
            self@.version < u32::MAX,
        ensures
            r@.file_name == self@.file_name,
            r@.content_type == self@.content_type,
            r@.size == self@.size,
            r@.created_at == r@.updated_at,
            r@.custom == self@.custom,
            r@.version == self@.version + 1,
            r@.version_id is Some,
            r@.parent_version_id == self@.version_id,
            r@.tags == self@.tags,
            r@.is_deleted == false,
            r@.deleted_at is None,
            r@.content_hash is None,
            r@.wf(),
    {
        let now = clock::now_seconds();
        FileMetadata {
            file_name: self.file_name.clone(),
            content_type: self.content_type.clone(),
            size: self.size,
            created_at: now,
            updated_at: now,
            custom: clone_pairs(&self.custom),
            version: self.version + 1,
            version_id: Some(ids::new_id()),
            parent_version_id: self.version_id.clone(),
            tags: clone_strings(&self.tags),
            is_deleted: false,
            deleted_at: None,
            content_hash: None,
        }
    }

    /// Marks the record deleted in place, stamping the deletion time.
    pub fn soft_delete(&mut self)
        ensures
            final(self)@ == (MetaView {
                is_deleted: true,
                deleted_at: Some(final(self)@.updated_at),
                updated_at: final(self)@.updated_at,
                ..old(self)@
            }),
            final(self)@.is_deleted,
            old(self)@.wf() ==> final(self)@.wf(),
    {
        let now = clock::now_seconds();
        self.is_deleted = true;
        self.deleted_at = Some(now);
        self.updated_at = now;
    }

    /// Clears the deletion mark in place.
    pub fn restore(&mut self)
        ensures
            final(self)@ == (MetaView {
                is_deleted: false,
                deleted_at: None,
                updated_at: final(self)@.updated_at,
                ..old(self)@
            }),
            !final(self)@.is_deleted,
            old(self)@.wf() ==> final(self)@.wf(),
    {
        let now = clock::now_seconds();
        self.is_deleted = false;
        self.deleted_at = None;
        self.updated_at = now;
    }

    /// Whether the record passes every criterion of `filters`.
    pub fn matches_filter(&self, filters: &FilterParams) -> (r: bool)
        ensures
            r == matches_filter_spec(self@, filters@),
    {
        if !filters.include_deleted && self.is_deleted {
            return false;
        }

        if let Some(pattern) = &filters.name_pattern {
            if !str_contains_sub(self.file_name.as_str(), pattern.as_str()) {
                return false;
            }
        }

        if let Some(ct) = &filters.content_type {
            match &self.content_type {
                Some(file_ct) => {
                    if !str_eq(file_ct.as_str(), ct.as_str()) {
                        return false;
                    }
                },
                None => {
                    return false;
                },
            }
        }

        if let Some(filter_tags) = &filters.tags {
            if !all_tags_present(&self.tags, filter_tags) {
                return false;
            }
        }

        if let Some(custom_filters) = &filters.custom {
            if !all_custom_match(&self.custom, custom_filters) {
                return false;
            }
        }

        true
    }
}

/// The value of an open key-value document at `key`: the first pair whose
/// key matches, if any.
pub open spec fn custom_lookup(custom: Seq<(Seq<char>, Seq<char>)>, key: Seq<char>) -> Option<
    Seq<char>,
>
    decreases custom.len(),
{
    if custom.len() == 0 {
        None
    } else if custom[0].0 == key {
        Some(custom[0].1)
    } else {
        custom_lookup(custom.drop_first(), key)
    }
}

/// Skipping pairs whose keys all differ from `key` leaves the lookup
/// unchanged.
proof fn lemma_custom_lookup_skip(custom: Seq<(Seq<char>, Seq<char>)>, key: Seq<char>, i: int)
    requires
        0 <= i <= custom.len(),
        forall|j: int| 0 <= j < i ==> custom[j].0 != key,
    ensures
        custom_lookup(custom, key) == custom_lookup(
            custom.subrange(i, custom.len() as int),
            key,
        ),
    decreases i,
{
    if i == 0 {
        assert(custom.subrange(0, custom.len() as int) =~= custom);
    } else {
        assert(custom[0].0 != key);
        lemma_custom_lookup_skip(custom.drop_first(), key, i - 1);
        assert(custom.drop_first().subrange(i - 1, custom.drop_first().len() as int) =~= custom
            .subrange(i, custom.len() as int));
    }
}

/// Whether the document holds exactly `val` under `key` (first match wins).
fn custom_value_is(custom: &Vec<(String, String)>, key: &str, val: &str) -> (r: bool)
    ensures
        r == (custom_lookup(custom.deep_view(), key@) == Some(val@)),
{
    let ghost cv = custom.deep_view();
    let mut i: usize = 0;
    while i < custom.len()
        invariant
            0 <= i <= custom.len(),
            cv == custom.deep_view(),
            cv.len() == custom.len(),
            forall|j: int| 0 <= j < i ==> cv[j].0 != key@,
        decreases custom.len() - i,
    {
        if str_eq(custom[i].0.as_str(), key) {
            proof {
                lemma_custom_lookup_skip(cv, key@, i as int);
                assert(cv.subrange(i as int, cv.len() as int)[0] == cv[i as int]);
            }
            return str_eq(custom[i].1.as_str(), val);
        }
        i += 1;
    }
    proof {
        lemma_custom_lookup_skip(cv, key@, cv.len() as int);
        assert(cv.subrange(cv.len() as int, cv.len() as int).len() == 0);
    }
    false
}

/// Whether every tag of `want` occurs in `tags`.
pub open spec fn tags_all_present(tags: Seq<Seq<char>>, want: Seq<Seq<char>>) -> bool {
    forall|i: int| 0 <= i < want.len() ==> tags.contains(#[trigger] want[i])
}

/// Whether, for every pair of `want`, the document `custom` holds exactly
/// that value as its first value under that key.
pub open spec fn custom_all_match(
    custom: Seq<(Seq<char>, Seq<char>)>,
    want: Seq<(Seq<char>, Seq<char>)>,
) -> bool {
    forall|i: int|
        0 <= i < want.len() ==> custom_lookup(custom, (#[trigger] want[i]).0) == Some(want[i].1)
}

/// Whether `tags` holds `tag`.
fn has_tag(tags: &Vec<String>, tag: &String) -> (r: bool)
    ensures
        r == tags.deep_view().contains(tag@),
{
    let mut i: usize = 0;
    while i < tags.len()
        invariant
            0 <= i <= tags.len(),
            forall|j: int| 0 <= j < i ==> tags.deep_view()[j] != tag@,
        decreases tags.len() - i,
    {
        if str_eq(tags[i].as_str(), tag.as_str()) {
            proof {
                assert(tags.deep_view()[i as int] == tag@);
            }
            return true;
        }
        i += 1;
    }
    proof {
        assert forall|j: int| 0 <= j < tags.deep_view().len() implies tags.deep_view()[j]
            != tag@ by {}
    }
    false
}

/// Whether every tag of `want` is present in `tags`.
pub fn all_tags_present(tags: &Vec<String>, want: &Vec<String>) -> (r: bool)
    ensures
        r == tags_all_present(tags.deep_view(), want.deep_view()),
{
    let mut i: usize = 0;
    while i < want.len()
        invariant
            0 <= i <= want.len(),
            forall|j: int|
                0 <= j < i ==> tags.deep_view().contains(#[trigger] want.deep_view()[j]),
        decreases want.len() - i,
    {
        let present = has_tag(tags, &want[i]);
        proof {
            assert(want.deep_view()[i as int] == want@[i as int]@);
        }
        if !present {
            return false;
        }
        i += 1;
    }
    true
}

/// Whether every pair of `want` is the first value `custom` holds under its
/// key.
fn all_custom_match(custom: &Vec<(String, String)>, want: &Vec<(String, String)>) -> (r: bool)
    ensures
        r == custom_all_match(custom.deep_view(), want.deep_view()),
{
    let mut i: usize = 0;
    while i < want.len()
        invariant
            0 <= i <= want.len(),
            forall|j: int|
                0 <= j < i ==> custom_lookup(custom.deep_view(), (#[trigger] want.deep_view()[j]).0)
                    == Some(want.deep_view()[j].1),
        decreases want.len() - i,
    {
        let hit = custom_value_is(custom, want[i].0.as_str(), want[i].1.as_str());
        proof {
            assert(want.deep_view()[i as int] == (want@[i as int].0@, want@[i as int].1@));
        }
        if !hit {
            return false;
        }
        i += 1;
    }
    true
}

/// The mathematical value of a [`FilterParams`].
pub ghost struct FilterView {
    pub name_pattern: Option<Seq<char>>,
    pub content_type: Option<Seq<char>>,
    pub custom: Option<Seq<(Seq<char>, Seq<char>)>>,
    pub tags: Option<Seq<Seq<char>>>,
    pub include_deleted: bool,
}

/// Criteria for narrowing a listing of records.
pub struct FilterParams {
    pub name_pattern: Option<String>,
    pub content_type: Option<String>,
    pub custom: Option<Vec<(String, String)>>,
    pub tags: Option<Vec<String>>,
    pub include_deleted: bool,
}

impl View for FilterParams {
    type V = FilterView;

    open spec fn view(&self) -> FilterView {
        FilterView {
            name_pattern: self.name_pattern.deep_view(),
            content_type: self.content_type.deep_view(),
            custom: self.custom.deep_view(),
            tags: self.tags.deep_view(),
            include_deleted: self.include_deleted,
        }
    }
}

/// What it means for a record to pass a filter: deleted records are excluded
/// unless asked for; a name pattern must occur in the file name; a content
/// type must match exactly; every requested tag must be present; and every
/// requested custom pair must be the document's first value under its key.
pub open spec fn matches_filter_spec(m: MetaView, f: FilterView) -> bool {
    &&& (f.include_deleted || !m.is_deleted)
    &&& (match f.name_pattern {
        Some(p) => seq_contains_sub(m.file_name, p),
        None => true,
    })
    &&& (match f.content_type {
        Some(ct) => m.content_type == Some(ct),
        None => true,
    })
    &&& (match f.tags {
        Some(ts) => tags_all_present(m.tags, ts),
        None => true,
    })
    &&& (match f.custom {
        Some(cs) => custom_all_match(m.custom, cs),
        None => true,
    })
}

} // verus!
