//! The gateway's configuration: where to listen, and the named storage
//! backends requests may address.

use vstd::prelude::*;

use crate::text::str_eq;

verus! {

/// The default listen address.
pub fn default_host() -> (r: String)
    ensures
        r@ == "0.0.0.0"@,
{
    String::from_str("0.0.0.0")
}

/// The default listen port.
pub fn default_port() -> (r: u16)
    ensures
        r == 3000,
{
    3000
}

/// Where the server listens.
pub struct ServerConfig {
    pub host: String,
    pub port: u16,
}

/// One named backend's settings.
pub enum StorageConfig {
    S3 { bucket: String, region: String, prefix: String, endpoint: Option<String> },
    Local { path: String },
}

/// The mathematical value of a [`StorageConfig`].
pub ghost enum StorageConfigView {
    S3 { bucket: Seq<char>, region: Seq<char>, prefix: Seq<char>, endpoint: Option<Seq<char>> },
    Local { path: Seq<char> },
}

impl View for StorageConfig {
    type V = StorageConfigView;

    open spec fn view(&self) -> StorageConfigView {
        match self {
            StorageConfig::S3 { bucket, region, prefix, endpoint } => StorageConfigView::S3 {
                bucket: bucket@,
                region: region@,
                prefix: prefix@,
                endpoint: endpoint.deep_view(),
            },
            StorageConfig::Local { path } => StorageConfigView::Local { path: path@ },
        }
    }
}

impl DeepView for StorageConfig {
    type V = StorageConfigView;

    open spec fn deep_view(&self) -> StorageConfigView {
        self.view()
    }
}

/// The whole configuration: the server address and the named backends.
pub struct Config {
    pub server: ServerConfig,
    pub storages: Vec<(String, StorageConfig)>,
}

/// The settings filed under `name`: the first pair whose name matches, if
/// any.
pub open spec fn storage_lookup(
    storages: Seq<(Seq<char>, StorageConfigView)>,
    name: Seq<char>,
) -> Option<StorageConfigView>
    decreases storages.len(),
{
    if storages.len() == 0 {
        None
    } else if storages[0].0 == name {
        Some(storages[0].1)
    } else {
        storage_lookup(storages.drop_first(), name)
    }
}

/// Skipping pairs whose names all differ from `name` leaves the lookup
/// unchanged.
proof fn lemma_storage_lookup_skip(
    storages: Seq<(Seq<char>, StorageConfigView)>,
    name: Seq<char>,
    i: int,
)
    requires
        0 <= i <= storages.len(),
        forall|j: int| 0 <= j < i ==> (#[trigger] storages[j]).0 != name,
    ensures
        storage_lookup(storages, name) == storage_lookup(
            storages.subrange(i, storages.len() as int),
            name,
        ),
    decreases i,
{
    if i == 0 {
        assert(storages.subrange(0, storages.len() as int) =~= storages);
    } else {
        assert(storages[0].0 != name);
        lemma_storage_lookup_skip(storages.drop_first(), name, i - 1);
        assert(storages.drop_first().subrange(i - 1, storages.drop_first().len() as int)
            =~= storages.subrange(i, storages.len() as int));
    }
}

impl Config {
    /// The storage pairs as mathematical values.
    pub open spec fn storage_pairs(&self) -> Seq<(Seq<char>, StorageConfigView)> {
        self.storages.deep_view()
    }

    /// The settings of the backend named `name`, if one is configured
    /// (first match wins).
    pub fn get_storage(&self, name: &str) -> (r: Option<&StorageConfig>)
        ensures
            r matches Some(c) ==> storage_lookup(self.storage_pairs(), name@) == Some(c@),
            r is None ==> storage_lookup(self.storage_pairs(), name@) is None,
    {
        let ghost ps = self.storage_pairs();
        let mut i: usize = 0;
        while i < self.storages.len()
            invariant
                0 <= i <= self.storages@.len(),
                ps == self.storage_pairs(),
                ps.len() == self.storages@.len(),
                forall|j: int| 0 <= j < i ==> (#[trigger] ps[j]).0 != name@,
            decreases self.storages@.len() - i,
        {
            if str_eq(self.storages[i].0.as_str(), name) {
                proof {
                    lemma_storage_lookup_skip(ps, name@, i as int);
                    assert(ps.subrange(i as int, ps.len() as int)[0] == ps[i as int]);
                }
                return Some(&self.storages[i].1);
            }
            i += 1;
        }
        proof {
            lemma_storage_lookup_skip(ps, name@, ps.len() as int);
            assert(ps.subrange(ps.len() as int, ps.len() as int).len() == 0);
        }
        None
    }
}

} // verus!
