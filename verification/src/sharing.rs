//! Expiring share capabilities: revocable, time- and usage-bounded tokens
//! granting access to one file without full authentication.
//!
//! A link is valid while the moment of use is strictly before `expires_at`
//! and the download counter is below its bound, when one was set. The caller
//! boundary checks validity before the password and the password before the
//! read, and counts a download only after a successful read.

use vstd::prelude::*;

use crate::clock;
use crate::error::ApiError;
use crate::ids;
use crate::kvmap::{assoc_get, assoc_insert, assoc_pairs, assoc_remove, lemma_filter_unique_keys,
    lemma_map_of_dom_index, lemma_map_of_dom_len, lemma_map_of_index, map_of, unique_keys};
use crate::text::str_eq;

verus! {

/// The mathematical value of a [`ShareLink`].
pub ghost struct ShareLinkView {
    pub id: Seq<char>,
    pub storage_name: Seq<char>,
    pub file_key: Seq<char>,
    pub created_at: i64,
    pub expires_at: i64,
    pub max_downloads: Option<u32>,
    pub download_count: u32,
    pub password: Option<Seq<char>>,
    pub is_upload_link: bool,
}

/// One share capability.
pub struct ShareLink {
    pub id: String,
    pub storage_name: String,
    pub file_key: String,
    pub created_at: i64,
    pub expires_at: i64,
    pub max_downloads: Option<u32>,
    pub download_count: u32,
    pub password: Option<String>,
    pub is_upload_link: bool,
}

impl View for ShareLink {
    type V = ShareLinkView;

    open spec fn view(&self) -> ShareLinkView {
        ShareLinkView {
            id: self.id@,
            storage_name: self.storage_name@,
            file_key: self.file_key@,
            created_at: self.created_at,
            expires_at: self.expires_at,
            max_downloads: self.max_downloads,
            download_count: self.download_count,
            password: self.password.deep_view(),
            is_upload_link: self.is_upload_link,
        }
    }
}

impl DeepView for ShareLink {
    type V = ShareLinkView;

    open spec fn deep_view(&self) -> ShareLinkView {
        self.view()
    }
}

impl Clone for ShareLink {
    /// A clone carries exactly the same link value.
    fn clone(&self) -> (r: Self)
        ensures
            r@ == self@,
    {
        ShareLink {
            id: self.id.clone(),
            storage_name: self.storage_name.clone(),
            file_key: self.file_key.clone(),
            created_at: self.created_at,
            expires_at: self.expires_at,
            max_downloads: self.max_downloads,
            download_count: self.download_count,
            password: self.password.clone(),
            is_upload_link: self.is_upload_link,
        }
    }
}

/// Addition on timestamps that stops at the representable ends instead of
/// wrapping.
pub open spec fn clamp_add(a: i64, b: i64) -> i64 {
    if a + b > i64::MAX {
        i64::MAX
    } else if a + b < i64::MIN {
        i64::MIN
    } else {
        (a + b) as i64
    }
}

/// Saturating timestamp addition.
fn saturating_add_i64(a: i64, b: i64) -> (r: i64)
    ensures
        r == clamp_add(a, b),
{
    if b >= 0 {
        if a > i64::MAX - b {
            i64::MAX
        } else {
            a + b
        }
    } else {
        if a < i64::MIN - b {
            i64::MIN
        } else {
            a + b
        }
    }
}

/// Whether a link may be used at moment `now`: strictly before its expiry,
/// and below its download bound when one was set.
pub open spec fn link_valid_at(l: ShareLinkView, now: i64) -> bool {
    &&& now < l.expires_at
    &&& (match l.max_downloads {
        Some(max) => l.download_count < max,
        None => true,
    })
}

impl ShareLink {
    /// A fresh link for `file_key` on the backend named `storage_name`,
    /// expiring `expires_in_seconds` from now (clamped at the representable
    /// ends) and starting with zero downloads.
    pub fn new(
        storage_name: String,
        file_key: String,
        expires_in_seconds: i64,
        max_downloads: Option<u32>,
        password: Option<String>,
        is_upload_link: bool,
    ) -> (r: Self)
        ensures
            r@.id.len() == 36,
            r@.storage_name == storage_name@,
            r@.file_key == file_key@,
            r@.expires_at == clamp_add(r@.created_at, expires_in_seconds),
            r@.max_downloads == max_downloads,
            r@.download_count == 0,
            r@.password == password.deep_view(),
            r@.is_upload_link == is_upload_link,
    {
        let now = clock::now_seconds();
        ShareLink {
            id: ids::new_id(),
            storage_name,
            file_key,
            created_at: now,
            expires_at: saturating_add_i64(now, expires_in_seconds),
            max_downloads,
            download_count: 0,
            password,
            is_upload_link,
        }
    }

    /// Whether the link may be used at moment `now`.
    pub fn is_valid_at(&self, now: i64) -> (r: bool)
        ensures
            r == link_valid_at(self@, now),
    {
        if now >= self.expires_at {
            return false;
        }
        match self.max_downloads {
            Some(max) => self.download_count < max,
            None => true,
        }
    }

    /// Whether the link may be used right now, by the clock's present
    /// reading. Whatever the clock says, a link whose download bound is
    /// reached is invalid.
    pub fn is_valid(&self) -> (r: bool)
        ensures
            r ==> (match self@.max_downloads {
                Some(max) => self@.download_count < max,
                None => true,
            }),
    {
        let now = clock::now_seconds();
        self.is_valid_at(now)
    }

    /// Counts one more download.
    pub fn increment_downloads(&mut self)
        requires
            old(self)@.download_count < u32::MAX,
        ensures
            final(self)@ == (ShareLinkView {
                download_count: (old(self)@.download_count + 1) as u32,
                ..old(self)@
            }),
    {
        self.download_count = self.download_count + 1;
    }

    /// The caller boundary's admission rule for one use of this link at
    /// moment `now`: validity is checked first and a stale or exhausted
    /// link fails before any password is looked at; then a supplied
    /// password must match. Only after both pass may the caller read the
    /// file and count the download.
    pub fn authorize_at(&self, password: Option<&str>, now: i64) -> (r: Result<(), ApiError>)
        ensures
            r is Ok <==> link_valid_at(self@, now) && (match password {
                Some(p) => (match self@.password {
                    Some(stored) => stored == p@,
                    None => true,
                }),
                None => true,
            }),
            !link_valid_at(self@, now) ==> (r matches Err(e) && e is Storage),
            r matches Err(e) ==> e is Storage,
    {
        if !self.is_valid_at(now) {
            return Err(ApiError::Storage(String::from_str("Share link expired or invalid")));
        }
        if let Some(pwd) = password {
            if !self.verify_password(pwd) {
                return Err(ApiError::Storage(String::from_str("Invalid password")));
            }
        }
        Ok(())
    }

    /// Whether `password` opens this link: an exact match when a password
    /// was set, and any input at all when none was.
    pub fn verify_password(&self, password: &str) -> (r: bool)
        ensures
            r == (match self@.password {
                Some(stored) => stored == password@,
                None => true,
            }),
    {
        match &self.password {
            Some(stored) => str_eq(stored.as_str(), password),
            None => true,
        }
    }
}

/// Law: a link created with a negative time-to-live is invalid at its own
/// creation moment and at every moment after it — exactly the shape `new`
/// gives such a link, except at the clock's lowest representable reading,
/// where expiry is clamped into validity.
pub proof fn lemma_negative_ttl_never_valid(l: ShareLinkView, expires_in_seconds: i64, t: i64)
    requires
        expires_in_seconds < 0,
        l.created_at > i64::MIN,
        l.expires_at == clamp_add(l.created_at, expires_in_seconds),
        t >= l.created_at,
    ensures
        !link_valid_at(l, t),
{
}

/// Law: a link whose download counter has reached its bound is invalid at
/// every moment, whatever the clock says.
pub proof fn lemma_exhausted_link_never_valid(l: ShareLinkView, t: i64)
    requires
        l.max_downloads matches Some(max) && l.download_count >= max,
    ensures
        !link_valid_at(l, t),
{
}

/// The registry of issued links, keyed by link identifier.
pub struct ShareLinkManager {
    links: Vec<(String, ShareLink)>,
}

impl ShareLinkManager {
    /// The issued links as a map from identifier to link.
    pub closed spec fn links_map(&self) -> Map<Seq<char>, ShareLinkView> {
        map_of(assoc_pairs(self.links@))
    }

    /// The registry invariant: unique identifiers, each link filed under its
    /// own.
    pub closed spec fn inv(&self) -> bool {
        &&& unique_keys(assoc_pairs(self.links@))
        &&& forall|i: int|
            0 <= i < self.links@.len() ==> (#[trigger] self.links@[i]).1.id@ == self.links@[i].0@
    }

    /// An empty registry.
    pub fn new() -> (r: Self)
        ensures
            r.inv(),
            r.links_map() == Map::<Seq<char>, ShareLinkView>::empty(),
    {
        let r = ShareLinkManager { links: Vec::new() };
        proof {
            assert(assoc_pairs(r.links@) =~= Seq::empty());
        }
        r
    }

    /// Files `link` under its identifier and hands it back unchanged.
    pub fn create_link(&mut self, link: ShareLink) -> (r: Result<ShareLink, ApiError>)
        requires
            old(self).inv(),
        ensures
            final(self).inv(),
            r is Ok,
            r matches Ok(l) ==> l@ == link@ && final(self).links_map() == old(self).links_map().insert(link@.id, link@),
    {
        let id = link.id.clone();
        let copy = link.clone();
        assoc_insert(&mut self.links, id, copy);
        proof {
            assert forall|i: int| 0 <= i < self.links@.len() implies (#[trigger] self.links@[
            i]).1.id@ == self.links@[i].0@ by {
                if self.links@[i].1.id@ != self.links@[i].0@ {
                    assert(old(self).links@.contains(self.links@[i]) || self.links@[i].1.id@
                        == self.links@[i].0@);
                }
            }
        }
        Ok(link)
    }

    /// The link filed under `id`; `NotFound` exactly when none is.
    pub fn get_link(&self, id: &str) -> (r: Result<ShareLink, ApiError>)
        requires
            self.inv(),
        ensures
            r matches Ok(l) ==> self.links_map().dom().contains(id@) && l@ == self.links_map()[id@],
            r matches Err(e) ==> e is NotFound && !self.links_map().dom().contains(id@),
    {
        match assoc_get(&self.links, id) {
            Some(link) => Ok(link.clone()),
            None => {
                let mut msg = String::from_str("Share link ");
                msg.append(id);
                msg.append(" not found");
                Err(ApiError::NotFound(msg))
            },
        }
    }

    /// Counts one more download on the link filed under `id`, holding the
    /// counter at its highest representable value; `NotFound` exactly when
    /// no link is filed there.
    pub fn increment_download(&mut self, id: &str) -> (r: Result<(), ApiError>)
        requires
            old(self).inv(),
        ensures
            final(self).inv(),
            r is Ok ==> old(self).links_map().dom().contains(id@) && final(self).links_map() == old(self).links_map().insert(
                id@,
                ShareLinkView {
                    download_count: bumped_count(old(self).links_map()[id@].download_count),
                    ..old(self).links_map()[id@]
                },
            ),
            r matches Err(e) ==> e is NotFound && !old(self).links_map().dom().contains(id@)
                && final(self).links_map() == old(self).links_map(),
    {
        let found = crate::kvmap::assoc_find(&self.links, id);
        match found {
            Some(i) => {
                proof {
                    lemma_map_of_index(assoc_pairs(self.links@), i as int);
                }
                let mut link = self.links[i].1.clone();
                if link.download_count < u32::MAX {
                    link.increment_downloads();
                }
                let key = self.links[i].0.clone();
                assoc_insert(&mut self.links, key, link);
                proof {
                    assert forall|t: int| 0 <= t < self.links@.len() implies (#[trigger] self
                        .links@[t]).1.id@ == self.links@[t].0@ by {
                        if self.links@[t].1.id@ != self.links@[t].0@ {
                            assert(old(self).links@.contains(self.links@[t]) || self.links@[t].1.id@
                                == self.links@[t].0@);
                        }
                    }
                }
                Ok(())
            },
            None => {
                let mut msg = String::from_str("Share link ");
                msg.append(id);
                msg.append(" not found");
                Err(ApiError::NotFound(msg))
            },
        }
    }

    /// Unfiles the link under `id`; `NotFound` exactly when none is.
    pub fn revoke_link(&mut self, id: &str) -> (r: Result<(), ApiError>)
        requires
            old(self).inv(),
        ensures
            final(self).inv(),
            r is Ok ==> old(self).links_map().dom().contains(id@) && final(self).links_map() == old(self).links_map().remove(id@),
            r matches Err(e) ==> e is NotFound && !old(self).links_map().dom().contains(id@)
                && final(self).links_map() == old(self).links_map(),
    {
        let removed = assoc_remove(&mut self.links, id);
        proof {
            assert forall|t: int| 0 <= t < self.links@.len() implies (#[trigger] self.links@[
            t]).1.id@ == self.links@[t].0@ by {
                assert(old(self).links@.contains(self.links@[t]) || self.links@[t].1.id@
                    == self.links@[t].0@);
            }
        }
        match removed {
            Some(_) => Ok(()),
            None => {
                let mut msg = String::from_str("Share link ");
                msg.append(id);
                msg.append(" not found");
                Err(ApiError::NotFound(msg))
            },
        }
    }

    /// Every issued link for the backend named `storage_name`.
    pub fn list_links(&self, storage_name: &str) -> (r: Result<Vec<ShareLink>, ApiError>)
        requires
            self.inv(),
        ensures
            r is Ok,
            r matches Ok(v) ==> {
                &&& forall|t: int|
                    0 <= t < v.deep_view().len() ==> {
                        &&& (#[trigger] v.deep_view()[t]).storage_name == storage_name@
                        &&& self.links_map().dom().contains(v.deep_view()[t].id)
                        &&& self.links_map()[v.deep_view()[t].id] == v.deep_view()[t]
                    }
                &&& forall|id: Seq<char>|
                    #[trigger] self.links_map().dom().contains(id) && self.links_map()[
                        id
                    ].storage_name == storage_name@ ==> v.deep_view().contains(self.links_map()[id])
            },
    {
        let mut out: Vec<ShareLink> = Vec::new();
        let mut i: usize = 0;
        while i < self.links.len()
            invariant
                self.inv(),
                0 <= i <= self.links@.len(),
                forall|t: int|
                    0 <= t < out.deep_view().len() ==> {
                        &&& (#[trigger] out.deep_view()[t]).storage_name == storage_name@
                        &&& self.links_map().dom().contains(out.deep_view()[t].id)
                        &&& self.links_map()[out.deep_view()[t].id] == out.deep_view()[t]
                    },
                forall|j: int|
                    0 <= j < i && (#[trigger] assoc_pairs(self.links@)[j]).1.storage_name
                        == storage_name@ ==> out.deep_view().contains(assoc_pairs(self.links@)[j].1),
            decreases self.links@.len() - i,
        {
            if str_eq(self.links[i].1.storage_name.as_str(), storage_name) {
                let ghost old_out = out.deep_view();
                out.push(self.links[i].1.clone());
                proof {
                    lemma_map_of_index(assoc_pairs(self.links@), i as int);
                    assert(out.deep_view() =~= old_out.push(self.links@[i as int].1@));
                    assert(out.deep_view()[old_out.len() as int] == assoc_pairs(self.links@)[
                        i as int
                    ].1);
                    assert(out.deep_view().contains(assoc_pairs(self.links@)[i as int].1));
                    assert forall|x: ShareLinkView| old_out.contains(
                        x,
                    ) implies out.deep_view().contains(x) by {
                        let t = choose|t: int| 0 <= t < old_out.len() && old_out[t] == x;
                        assert(out.deep_view()[t] == x);
                    }
                }
            }
            i += 1;
        }
        proof {
            assert forall|id: Seq<char>|
                #[trigger] self.links_map().dom().contains(id) && self.links_map()[id].storage_name
                    == storage_name@ implies out.deep_view().contains(self.links_map()[id]) by {
                lemma_map_of_dom_index(assoc_pairs(self.links@), id);
            }
        }
        Ok(out)
    }

    /// Sweeps out every link that is invalid at moment `now`: exactly the
    /// valid ones stay, unchanged, and the count removed is returned.
    pub fn cleanup_expired_at(&mut self, now: i64) -> (r: usize)
        requires
            old(self).inv(),
        ensures
            final(self).inv(),
            forall|id: Seq<char>|
                #[trigger] final(self).links_map().dom().contains(id) == (old(self).links_map().dom().contains(id) && link_valid_at(old(self).links_map()[id], now)),
            forall|id: Seq<char>|
                #[trigger] final(self).links_map().dom().contains(id) ==> final(self).links_map()[
                    id
                ] == old(self).links_map()[id],
            r == old(self).links_map().dom().len() - final(self).links_map().dom().len(),
    {
        let ghost orig = assoc_pairs(self.links@);
        let ghost pred = |p: (Seq<char>, ShareLinkView)| link_valid_at(p.1, now);

        let mut kept: Vec<(String, ShareLink)> = Vec::new();
        let mut i: usize = 0;
        while i < self.links.len()
            invariant
                self.inv(),
                orig == assoc_pairs(self.links@),
                pred == (|p: (Seq<char>, ShareLinkView)| link_valid_at(p.1, now)),
                0 <= i <= self.links@.len(),
                assoc_pairs(kept@) == orig.take(i as int).filter(pred),
            decreases self.links@.len() - i,
        {
            let keep = self.links[i].1.is_valid_at(now);
            proof {
                broadcast use Seq::lemma_filter_push;

                assert(orig.take(i + 1 as int) =~= orig.take(i as int).push(orig[i as int]));
            }
            if keep {
                let ghost old_kept = assoc_pairs(kept@);
                let key = self.links[i].0.clone();
                let link = self.links[i].1.clone();
                kept.push((key, link));
                proof {
                    assert(assoc_pairs(kept@) =~= old_kept.push(orig[i as int]));
                }
            }
            i += 1;
        }
        proof {
            assert(orig.take(self.links@.len() as int) =~= orig);
        }

        let before = self.links.len();
        let after = kept.len();
        proof {
            broadcast use vstd::seq_lib::group_filter_ensures;

            lemma_filter_unique_keys(orig, pred);
            lemma_map_of_dom_len(orig);
            lemma_map_of_dom_len(assoc_pairs(kept@));
        }
        self.links = kept;
        proof {
            broadcast use vstd::seq_lib::group_filter_ensures;

            assert forall|id: Seq<char>|
                #[trigger] self.links_map().dom().contains(id) implies (map_of(
                orig,
            ).dom().contains(id) && link_valid_at(map_of(orig)[id], now) && self.links_map()[id]
                == map_of(orig)[id]) by {
                lemma_map_of_dom_index(assoc_pairs(self.links@), id);
                let t = choose|t: int|
                    0 <= t < assoc_pairs(self.links@).len() && (#[trigger] assoc_pairs(
                        self.links@,
                    )[t]).0 == id && self.links_map()[id] == assoc_pairs(self.links@)[t].1;
                Seq::lemma_filter_contains_rev(orig, pred, assoc_pairs(self.links@)[t]);
                let j = choose|j: int|
                    0 <= j < orig.len() && orig[j] == assoc_pairs(self.links@)[t as int];
                lemma_map_of_index(orig, j);
            }
            assert forall|id: Seq<char>|
                map_of(orig).dom().contains(id) && link_valid_at(
                    map_of(orig)[id],
                    now,
                ) implies #[trigger] self.links_map().dom().contains(id) by {
                lemma_map_of_dom_index(orig, id);
                let j = choose|j: int|
                    0 <= j < orig.len() && (#[trigger] orig[j]).0 == id && map_of(orig)[id]
                        == orig[j].1;
                Seq::lemma_filter_contains(orig, pred, j);
                let t = choose|t: int|
                    0 <= t < assoc_pairs(self.links@).len() && assoc_pairs(self.links@)[t]
                        == orig[j];
                lemma_map_of_index(assoc_pairs(self.links@), t);
            }
            assert forall|t: int| 0 <= t < self.links@.len() implies (#[trigger] self.links@[
            t]).1.id@ == self.links@[t].0@ by {
                Seq::lemma_filter_contains_rev(orig, pred, assoc_pairs(self.links@)[t]);
                let j = choose|j: int|
                    0 <= j < orig.len() && orig[j] == assoc_pairs(self.links@)[t as int];
                assert(old(self).links@[j].1.id@ == old(self).links@[j].0@);
            }
        }
        before - after
    }

    /// Sweeps out every link that is invalid by the clock's present reading;
    /// what stays was issued before and is unchanged.
    pub fn cleanup_expired(&mut self) -> (r: Result<usize, ApiError>)
        requires
            old(self).inv(),
        ensures
            final(self).inv(),
            r is Ok,
            forall|id: Seq<char>|
                #[trigger] final(self).links_map().dom().contains(id) ==> old(self).links_map().dom().contains(id) && final(self).links_map()[id] == old(self).links_map()[id],
            r matches Ok(n) ==> n == old(self).links_map().dom().len() - final(self).links_map().dom().len(),
    {
        let now = clock::now_seconds();
        let n = self.cleanup_expired_at(now);
        Ok(n)
    }
}

/// The saturating successor of a download counter.
pub open spec fn bumped_count(c: u32) -> u32 {
    if c < u32::MAX {
        (c + 1) as u32
    } else {
        c
    }
}

} // verus!
