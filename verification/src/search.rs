//! Metadata search over one backend: case-insensitive text matching on file
//! names and the open key-value document, plus tag and content-type
//! criteria, with results ordered most recently updated first.

use vstd::prelude::*;

use crate::error::ApiError;
use crate::metadata::{tags_all_present, FileMetadata, MetaView};
use crate::storage::{Storage, StoredObject};
use crate::text::{seq_contains_sub, str_contains_sub, str_eq};

verus! {

/// The lowercase form of a string, as `str::to_lowercase` defines it. The
/// folding tables live in the standard library; the library only names the
/// result.
pub uninterp spec fn lower_of(s: Seq<char>) -> Seq<char>;

/// Relies on `str::to_lowercase`: the lowercase form of the input, a
/// function of the characters alone.
#[verifier::external_body]
fn lowercase(s: &str) -> (r: String)
    ensures
        r@ == lower_of(s@),
{
    s.to_lowercase()
}

/// What a search asks for.
pub struct SearchQuery {
    pub query: Option<String>,
    pub tags: Option<Vec<String>>,
    pub content_type: Option<String>,
    pub name_pattern: Option<String>,
    pub include_deleted: bool,
}

/// The mathematical value of a [`SearchQuery`].
pub ghost struct SearchQueryView {
    pub query: Option<Seq<char>>,
    pub tags: Option<Seq<Seq<char>>>,
    pub content_type: Option<Seq<char>>,
    pub name_pattern: Option<Seq<char>>,
    pub include_deleted: bool,
}

impl View for SearchQuery {
    type V = SearchQueryView;

    open spec fn view(&self) -> SearchQueryView {
        SearchQueryView {
            query: self.query.deep_view(),
            tags: self.tags.deep_view(),
            content_type: self.content_type.deep_view(),
            name_pattern: self.name_pattern.deep_view(),
            include_deleted: self.include_deleted,
        }
    }
}

/// Whether the free-text term occurs, lowercased, in some key or value of
/// the open key-value document.
pub open spec fn custom_text_matches(custom: Seq<(Seq<char>, Seq<char>)>, term: Seq<char>) -> bool {
    exists|i: int|
        0 <= i < custom.len() && (seq_contains_sub(lower_of((#[trigger] custom[i]).0), term)
            || seq_contains_sub(lower_of(custom[i].1), term))
}

/// What it means for a record to answer a search: deleted records are
/// excluded unless asked for; the name pattern and the free-text term match
/// case-insensitively, the latter against the file name or the key-value
/// document; every requested tag is present; and the content type matches
/// exactly.
pub open spec fn matches_query_spec(m: MetaView, q: SearchQueryView) -> bool {
    &&& (q.include_deleted || !m.is_deleted)
    &&& (match q.name_pattern {
        Some(p) => seq_contains_sub(lower_of(m.file_name), lower_of(p)),
        None => true,
    })
    &&& (match q.query {
        Some(term) => seq_contains_sub(lower_of(m.file_name), lower_of(term))
            || custom_text_matches(m.custom, lower_of(term)),
        None => true,
    })
    &&& (match q.tags {
        Some(ts) => tags_all_present(m.tags, ts),
        None => true,
    })
    &&& (match q.content_type {
        Some(ct) => m.content_type == Some(ct),
        None => true,
    })
}

/// Most recently updated first.
pub open spec fn sorted_by_updated_desc(s: Seq<MetaView>) -> bool {
    forall|i: int, j: int|
        0 <= i < j < s.len() ==> (#[trigger] s[i]).updated_at >= (#[trigger] s[j]).updated_at
}

/// What a search returns, with its size.
pub struct SearchResults {
    pub results: Vec<FileMetadata>,
    pub total_count: usize,
}

/// Reorders records most-recently-updated-first, keeping exactly the same
/// records.
fn sort_by_updated_desc(v: Vec<FileMetadata>) -> (r: Vec<FileMetadata>)
    ensures
        sorted_by_updated_desc(r.deep_view()),
        r.deep_view().to_multiset() == v.deep_view().to_multiset(),
{
    broadcast use vstd::seq_lib::group_to_multiset_ensures;
    broadcast use vstd::multiset::group_multiset_axioms;

    let ghost orig = v.deep_view().to_multiset();
    let mut rest = v;
    let mut out: Vec<FileMetadata> = Vec::new();
    while rest.len() > 0
        invariant
            sorted_by_updated_desc(out.deep_view()),
            forall|i: int, j: int|
                0 <= i < out.deep_view().len() && 0 <= j < rest.deep_view().len() ==> (
                #[trigger] out.deep_view()[i]).updated_at >= (
                #[trigger] rest.deep_view()[j]).updated_at,
            out.deep_view().to_multiset().add(rest.deep_view().to_multiset()) == orig,
        decreases rest.len(),
    {
        let mut best: usize = 0;
        let mut i: usize = 1;
        while i < rest.len()
            invariant
                0 <= best < rest.len(),
                best < i <= rest.len(),
                forall|j: int|
                    0 <= j < i ==> (#[trigger] rest.deep_view()[j]).updated_at <= rest.deep_view()[
                        best as int
                    ].updated_at,
            decreases rest.len() - i,
        {
            if rest[i].updated_at > rest[best].updated_at {
                best = i;
            }
            i += 1;
        }
        let ghost old_rest = rest.deep_view();
        let ghost old_out = out.deep_view();
        let picked = rest.remove(best);
        out.push(picked);
        proof {
            broadcast use vstd::seq_lib::group_to_multiset_ensures;
            broadcast use vstd::multiset::group_multiset_axioms;

            assert(rest.deep_view() =~= old_rest.remove(best as int));
            assert(out.deep_view() =~= old_out.push(picked@));
            assert(picked@ == old_rest[best as int]);
            assert(old_rest.remove(best as int).to_multiset() =~= old_rest.to_multiset().remove(
                old_rest[best as int],
            ));
            assert(old_out.push(picked@).to_multiset() =~= old_out.to_multiset().insert(picked@));
            assert(rest.deep_view().to_multiset() =~= old_rest.to_multiset().remove(picked@));
            assert(out.deep_view().to_multiset() =~= old_out.to_multiset().insert(picked@));
            assert(old_rest.contains(picked@));
            assert(old_rest.to_multiset().count(picked@) > 0);
            assert(out.deep_view().to_multiset().add(rest.deep_view().to_multiset()) =~= orig);
        }
    }
    out
}

/// Search over one backend's records.
pub struct SearchEngine<S: Storage> {
    storage: S,
}

impl<S: Storage> SearchEngine<S> {
    /// The backend's contents.
    pub closed spec fn contents(&self) -> Map<Seq<char>, StoredObject> {
        self.storage.contents()
    }

    /// The engine's invariant: the backend's own.
    pub closed spec fn inv(&self) -> bool {
        self.storage.inv()
    }

    /// A search engine over `storage`.
    pub fn new(storage: S) -> (r: Self)
        requires
            storage.inv(),
        ensures
            r.inv(),
            r.contents() == storage.contents(),
    {
        SearchEngine { storage }
    }

    /// Whether one record answers `query`.
    pub fn matches_query(&self, file: &FileMetadata, query: &SearchQuery) -> (r: bool)
        ensures
            r == matches_query_spec(file@, query@),
    {
        if !query.include_deleted && file.is_deleted {
            return false;
        }

        let lower_name = lowercase(file.file_name.as_str());

        if let Some(pattern) = &query.name_pattern {
            let lower_pattern = lowercase(pattern.as_str());
            if !str_contains_sub(lower_name.as_str(), lower_pattern.as_str()) {
                return false;
            }
        }

        if let Some(term) = &query.query {
            let lower_term = lowercase(term.as_str());
            let in_name = str_contains_sub(lower_name.as_str(), lower_term.as_str());
            if !in_name && !custom_contains_term(&file.custom, lower_term.as_str()) {
                return false;
            }
        }

        if let Some(query_tags) = &query.tags {
            if !crate::metadata::all_tags_present(&file.tags, query_tags) {
                return false;
            }
        }

        if let Some(ct) = &query.content_type {
            match &file.content_type {
                Some(file_ct) => {
                    if !str_eq(file_ct.as_str(), ct.as_str()) {
                        return false;
                    }
                },
                None => {
                    return false;
                },
            }
        }

        true
    }

    /// Every record answering `query`, most recently updated first, with
    /// the count of answers.
    pub fn search(&self, query: SearchQuery) -> (r: Result<SearchResults, ApiError>)
        requires
            self.inv(),
        ensures
            r matches Ok(res) ==> {
                &&& res.total_count == res.results@.len()
                &&& sorted_by_updated_desc(res.results.deep_view())
                &&& forall|t: int|
                    0 <= t < res.results.deep_view().len() ==> matches_query_spec(
                        #[trigger] res.results.deep_view()[t],
                        query@,
                    ) && exists|k: Seq<char>|
                        #[trigger] self.contents().dom().contains(k) && self.contents()[k].meta
                            == res.results.deep_view()[t]
                &&& forall|k: Seq<char>|
                    #[trigger] self.contents().dom().contains(k) && matches_query_spec(
                        self.contents()[k].meta,
                        query@,
                    ) ==> res.results.deep_view().contains(self.contents()[k].meta)
            },
    {
        let all_files = match self.storage.list(None) {
            Ok(v) => v,
            Err(e) => {
                return Err(e);
            },
        };

        let mut hits: Vec<FileMetadata> = Vec::new();
        let mut i: usize = 0;
        while i < all_files.len()
            invariant
                self.inv(),
                0 <= i <= all_files.deep_view().len(),
                all_files.deep_view().len() == all_files@.len(),
                crate::storage::is_listing(
                    self.contents(),
                    Seq::<char>::empty(),
                    all_files.deep_view(),
                ),
                forall|t: int|
                    0 <= t < hits.deep_view().len() ==> matches_query_spec(
                        #[trigger] hits.deep_view()[t],
                        query@,
                    ) && exists|k: Seq<char>|
                        #[trigger] self.contents().dom().contains(k) && self.contents()[k].meta
                            == hits.deep_view()[t],
                forall|j: int|
                    0 <= j < i && matches_query_spec(#[trigger] all_files.deep_view()[j], query@)
                        ==> hits.deep_view().contains(all_files.deep_view()[j]),
            decreases all_files@.len() - i,
        {
            if self.matches_query(&all_files[i], &query) {
                let ghost old_hits = hits.deep_view();
                hits.push(all_files[i].clone());
                proof {
                    assert(hits.deep_view() =~= old_hits.push(all_files.deep_view()[i as int]));
                    assert(hits.deep_view()[old_hits.len() as int] == all_files.deep_view()[
                        i as int
                    ]);
                    assert(hits.deep_view().contains(all_files.deep_view()[i as int]));
                    let k0 = choose|k: Seq<char>|
                        #[trigger] self.contents().dom().contains(k) && Seq::<char>::empty()
                            .is_prefix_of(k) && self.contents()[k].meta == all_files.deep_view()[
                            i as int
                        ];
                    assert(self.contents().dom().contains(k0) && self.contents()[k0].meta
                        == hits.deep_view()[old_hits.len() as int]);
                    assert forall|x: MetaView| old_hits.contains(x) implies hits.deep_view()
                        .contains(x) by {
                        let t = choose|t: int| 0 <= t < old_hits.len() && old_hits[t] == x;
                        assert(hits.deep_view()[t] == x);
                    }
                }
            }
            i += 1;
        }

        let results = sort_by_updated_desc(hits);
        proof {
            broadcast use vstd::seq_lib::group_to_multiset_ensures;

            assert forall|x: MetaView| results.deep_view().contains(x) == hits.deep_view().contains(
                x,
            ) by {
                vstd::seq_lib::to_multiset_contains(results.deep_view(), x);
                vstd::seq_lib::to_multiset_contains(hits.deep_view(), x);
            }
            assert forall|t: int| 0 <= t < results.deep_view().len() implies matches_query_spec(
                #[trigger] results.deep_view()[t],
                query@,
            ) && exists|k: Seq<char>|
                #[trigger] self.contents().dom().contains(k) && self.contents()[k].meta
                    == results.deep_view()[t] by {
                assert(results.deep_view().contains(results.deep_view()[t]));
                let u = choose|u: int|
                    0 <= u < hits.deep_view().len() && hits.deep_view()[u] == results.deep_view()[t];
            }
            assert forall|k: Seq<char>|
                #[trigger] self.contents().dom().contains(k) && matches_query_spec(
                    self.contents()[k].meta,
                    query@,
                ) implies results.deep_view().contains(self.contents()[k].meta) by {
                assert(Seq::<char>::empty().is_prefix_of(k));
                assert(all_files.deep_view().contains(self.contents()[k].meta));
                let j = choose|j: int|
                    0 <= j < all_files.deep_view().len() && all_files.deep_view()[j]
                        == self.contents()[k].meta;
                assert(hits.deep_view().contains(all_files.deep_view()[j]));
            }
        }
        let total_count = results.len();
        Ok(SearchResults { results, total_count })
    }
}

/// Whether the lowercased term occurs in some key or value of the document.
fn custom_contains_term(custom: &Vec<(String, String)>, term: &str) -> (r: bool)
    ensures
        r == custom_text_matches(custom.deep_view(), term@),
{
    let mut i: usize = 0;
    while i < custom.len()
        invariant
            0 <= i <= custom.len(),
            forall|j: int|
                0 <= j < i ==> !seq_contains_sub(
                    lower_of((#[trigger] custom.deep_view()[j]).0),
                    term@,
                ) && !seq_contains_sub(lower_of(custom.deep_view()[j].1), term@),
        decreases custom.len() - i,
    {
        let lower_key = lowercase(custom[i].0.as_str());
        let lower_val = lowercase(custom[i].1.as_str());
        let hit = str_contains_sub(lower_key.as_str(), term) || str_contains_sub(
            lower_val.as_str(),
            term,
        );
        proof {
            assert(custom.deep_view()[i as int] == (custom@[i as int].0@, custom@[i as int].1@));
        }
        if hit {
            return true;
        }
        i += 1;
    }
    false
}

} // verus!
