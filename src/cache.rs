//! The two-way cache: identifier to URL and URL to identifier, each a bounded
//! map that evicts on its own.
use vstd::prelude::*;

use mini_moka::sync::Cache;

use crate::{SeqId, Url};

verus! {

/// How many entries each direction holds at most.
pub const CACHE_CAPACITY: u64 = 10_000;

#[verifier::external_type_specification]
#[verifier::external_body]
#[verifier::reject_recursive_types(K)]
#[verifier::reject_recursive_types(V)]
#[verifier::reject_recursive_types(S)]
pub struct ExCache<K, V, S>(mini_moka::sync::Cache<K, V, S>);

/// The entries that a forward cache holds.
pub uninterp spec fn id_entries(c: Cache<i64, String>) -> Map<i64, Seq<char>>;

/// The entries that a reverse cache holds.
pub uninterp spec fn url_entries(c: Cache<String, i64>) -> Map<Seq<char>, i64>;

/// Relies on `mini_moka::sync::Cache::new`: a new cache holds nothing.
#[verifier::external_body]
fn new_id_cache(capacity: u64) -> (r: Cache<i64, String>)
    ensures
        forall|k: i64| !#[trigger] id_entries(r).contains_key(k),
{
    Cache::new(capacity)
}

/// Relies on `mini_moka::sync::Cache::new`: a new cache holds nothing.
#[verifier::external_body]
fn new_url_cache(capacity: u64) -> (r: Cache<String, i64>)
    ensures
        forall|k: Seq<char>| !#[trigger] url_entries(r).contains_key(k),
{
    Cache::new(capacity)
}

/// Relies on `mini_moka::sync::Cache::get`: on a cache made by `Cache::new`
/// (no time to live or idle, never invalidated) it answers what the map holds
/// for the key; the upkeep that follows the read may only evict entries.
#[verifier::external_body]
fn id_cache_get(c: &mut Cache<i64, String>, id: i64) -> (r: Option<String>)
    ensures
        r is Some <==> id_entries(*old(c)).contains_key(id),
        r is Some ==> r->0@ == id_entries(*old(c))[id],
        id_entries(*final(c)).submap_of(id_entries(*old(c))),
{
    c.get(&id)
}

/// Relies on `mini_moka::sync::Cache::get`: on a cache made by `Cache::new`
/// (no time to live or idle, never invalidated) it answers what the map holds
/// for the key; the upkeep that follows the read may only evict entries.
#[verifier::external_body]
fn url_cache_get(c: &mut Cache<String, i64>, url: &String) -> (r: Option<i64>)
    ensures
        r is Some <==> url_entries(*old(c)).contains_key(url@),
        r is Some ==> r->0 == url_entries(*old(c))[url@],
        url_entries(*final(c)).submap_of(url_entries(*old(c))),
{
    c.get(url)
}

/// Relies on `mini_moka::sync::Cache::insert`: the pair replaces any entry for
/// the key; the upkeep that follows may evict entries, this one included.
#[verifier::external_body]
fn id_cache_insert(c: &mut Cache<i64, String>, id: i64, url: String)
    ensures
        id_entries(*final(c)).submap_of(id_entries(*old(c)).insert(id, url@)),
{
    c.insert(id, url)
}

/// Relies on `mini_moka::sync::Cache::insert`: the pair replaces any entry for
/// the key; the upkeep that follows may evict entries, this one included.
#[verifier::external_body]
fn url_cache_insert(c: &mut Cache<String, i64>, url: String, id: i64)
    ensures
        url_entries(*final(c)).submap_of(url_entries(*old(c)).insert(url@, id)),
{
    c.insert(url, id)
}

/// The store's mapping from identifiers to URLs is one to one.
pub open spec fn is_bijection(db: Map<i64, Seq<char>>) -> bool {
    forall|a: i64, b: i64|
        #[trigger] db.contains_key(a) && #[trigger] db.contains_key(b) && db[a] == db[b] ==> a
            == b
}

/// The cache in front of the durable store. It holds copies of stored pairs
/// only; the store itself is driven by the caller, which hands back what the
/// store answered. Its two caches are made by `Cache::new`, are never cloned,
/// and are reached only through the items above.
pub struct CachableStorage {
    id_to_url_cache: Cache<i64, String>,
    url_to_id_cache: Cache<String, i64>,
    /// Every pair that has been written to both directions.
    offered: Ghost<Set<(i64, Seq<char>)>>,
}

impl CachableStorage {
    /// The forward direction: identifier to URL.
    pub closed spec fn ids(&self) -> Map<i64, Seq<char>> {
        id_entries(self.id_to_url_cache)
    }

    /// The reverse direction: URL to identifier.
    pub closed spec fn urls(&self) -> Map<Seq<char>, i64> {
        url_entries(self.url_to_id_cache)
    }

    /// The pairs that have been written, each to both directions at once.
    pub closed spec fn offered(&self) -> Set<(i64, Seq<char>)> {
        self.offered@
    }

    /// Each cached entry, in either direction, is a pair that was written to
    /// both, with a non-negative identifier.
    pub open spec fn wf(&self) -> bool {
        &&& forall|id: i64| #[trigger]
            self.ids().contains_key(id) ==> self.offered().contains((id, self.ids()[id]))
        &&& forall|u: Seq<char>| #[trigger]
            self.urls().contains_key(u) ==> self.offered().contains((self.urls()[u], u))
        &&& forall|p: (i64, Seq<char>)| #[trigger] self.offered().contains(p) ==> p.0 >= 0
    }

    /// Every cached entry is a pair of the store's mapping `db`.
    pub open spec fn agrees_with(&self, db: Map<i64, Seq<char>>) -> bool {
        &&& forall|id: i64| #[trigger]
            self.ids().contains_key(id) ==> db.contains_key(id) && db[id] == self.ids()[id]
        &&& forall|u: Seq<char>| #[trigger]
            self.urls().contains_key(u) ==> db.contains_key(self.urls()[u]) && db[self.urls()[u]]
                == u
    }

    pub fn new() -> (r: CachableStorage)
        ensures
            r.wf(),
            r.ids() == Map::<i64, Seq<char>>::empty(),
            r.urls() == Map::<Seq<char>, i64>::empty(),
            r.offered() == Set::<(i64, Seq<char>)>::empty(),
    {
        let r = CachableStorage {
            id_to_url_cache: new_id_cache(CACHE_CAPACITY),
            url_to_id_cache: new_url_cache(CACHE_CAPACITY),
            offered: Ghost(Set::empty()),
        };
        assert(r.ids() =~= Map::<i64, Seq<char>>::empty());
        assert(r.urls() =~= Map::<Seq<char>, i64>::empty());
        r
    }

    /// Looks `id` up in the forward direction; none means the store must be asked.
    pub fn get(&mut self, id: SeqId) -> (r: Option<Url>)
        requires
            old(self).wf(),
        ensures
            final(self).wf(),
            r is Some <==> old(self).ids().contains_key(id.0),
            r is Some ==> r->0@ == old(self).ids()[id.0],
            final(self).ids().submap_of(old(self).ids()),
            final(self).urls() == old(self).urls(),
            final(self).offered() == old(self).offered(),
    {
        let ghost before = *self;
        let r = id_cache_get(&mut self.id_to_url_cache, id.0);
        assert forall|i: i64| #[trigger] self.ids().contains_key(i) implies self.offered().contains(
            (i, self.ids()[i]),
        ) by {
            assert(before.ids().contains_key(i));
        }
        assert(self.urls() == before.urls());
        assert(self.offered() == before.offered());
        match r {
            Some(u) => Some(Url(u)),
            None => None,
        }
    }

    /// Looks `url` up in the reverse direction; none means the store must be asked.
    pub fn get_key_by_value(&mut self, url: &Url) -> (r: Option<SeqId>)
        requires
            old(self).wf(),
        ensures
            final(self).wf(),
            r is Some <==> old(self).urls().contains_key(url@),
            r is Some ==> (r->0).0 == old(self).urls()[url@] && (r->0).0 >= 0,
            final(self).urls().submap_of(old(self).urls()),
            final(self).ids() == old(self).ids(),
            final(self).offered() == old(self).offered(),
    {
        let ghost before = *self;
        let r = url_cache_get(&mut self.url_to_id_cache, &url.0);
        assert forall|u: Seq<char>| #[trigger] self.urls().contains_key(u) implies self.offered().contains(
            (self.urls()[u], u),
        ) by {
            assert(before.urls().contains_key(u));
        }
        assert(self.ids() == before.ids());
        assert(self.offered() == before.offered());
        match r {
            Some(id) => {
                assert(before.urls().contains_key(url@));
                assert(self.offered().contains((id, url@)));
                Some(SeqId(id))
            },
            None => None,
        }
    }

    /// Writes a stored pair to both directions.
    pub fn insert(&mut self, url: Url, id: SeqId) -> (r: SeqId)
        requires
            old(self).wf(),
            id.0 >= 0,
        ensures
            final(self).wf(),
            r == id,
            final(self).offered() == old(self).offered().insert((id.0, url@)),
            final(self).ids().submap_of(old(self).ids().insert(id.0, url@)),
            final(self).urls().submap_of(old(self).urls().insert(url@, id.0)),
    {
        let ghost pair = (id.0, url@);
        let copy = url.0.clone();
        id_cache_insert(&mut self.id_to_url_cache, id.0, copy);
        url_cache_insert(&mut self.url_to_id_cache, url.0, id.0);
        self.offered = Ghost(self.offered@.insert(pair));
        assert forall|p: (i64, Seq<char>)| #[trigger] self.offered().contains(p) implies p.0 >= 0 by {
            if p != pair {
                assert(old(self).offered().contains(p));
            }
        }
        assert forall|i: i64| #[trigger] self.ids().contains_key(i) implies self.offered().contains(
            (i, self.ids()[i]),
        ) by {
            assert(old(self).ids().insert(id.0, url@).contains_key(i));
            if i != id.0 {
                assert(old(self).ids().contains_key(i));
            }
        }
        assert forall|u: Seq<char>| #[trigger] self.urls().contains_key(u) implies self.offered().contains(
            (self.urls()[u], u),
        ) by {
            assert(old(self).urls().insert(url@, id.0).contains_key(u));
            if u != url@ {
                assert(old(self).urls().contains_key(u));
            }
        }
        id
    }

    /// Hands back what the store answered for `id`, writing a found pair to
    /// both directions; an absence is not cached.
    pub fn get_from_store(&mut self, id: SeqId, stored: Option<Url>) -> (r: Option<Url>)
        requires
            old(self).wf(),
            id.0 >= 0,
        ensures
            final(self).wf(),
            r == stored,
            stored is None ==> *final(self) == *old(self),
            stored is Some ==> {
                &&& final(self).offered() == old(self).offered().insert((id.0, stored->0@))
                &&& final(self).ids().submap_of(old(self).ids().insert(id.0, stored->0@))
                &&& final(self).urls().submap_of(old(self).urls().insert(stored->0@, id.0))
            },
    {
        match stored {
            Some(u) => {
                let copy = Url(u.0.clone());
                self.insert(copy, id);
                Some(u)
            },
            None => None,
        }
    }

    /// Hands back what the store answered for `url`, writing a found pair to
    /// both directions; an absence is not cached.
    pub fn get_key_from_store(&mut self, url: Url, stored: Option<SeqId>) -> (r: Option<SeqId>)
        requires
            old(self).wf(),
        ensures
            final(self).wf(),
            r == stored,
            stored is None || (stored->0).0 < 0 ==> *final(self) == *old(self),
            stored is Some && (stored->0).0 >= 0 ==> {
                &&& final(self).offered() == old(self).offered().insert(((stored->0).0, url@))
                &&& final(self).ids().submap_of(old(self).ids().insert((stored->0).0, url@))
                &&& final(self).urls().submap_of(old(self).urls().insert(url@, (stored->0).0))
            },
    {
        match stored {
            Some(id) => {
                if id.0 >= 0 {
                    self.insert(url, id);
                }
                Some(id)
            },
            None => None,
        }
    }
}

/// Writing a pair of the store's mapping keeps the cache in agreement with
/// the store: whatever the cache evicts, it answers only stored pairs.
pub proof fn law_write_keeps_agreement(
    before: CachableStorage,
    after: CachableStorage,
    db: Map<i64, Seq<char>>,
    id: i64,
    url: Seq<char>,
)
    requires
        before.agrees_with(db),
        db.contains_key(id),
        db[id] == url,
        after.ids().submap_of(before.ids().insert(id, url)),
        after.urls().submap_of(before.urls().insert(url, id)),
    ensures
        after.agrees_with(db),
{
    assert forall|i: i64| #[trigger] after.ids().contains_key(i) implies db.contains_key(i)
        && db[i] == after.ids()[i] by {
        assert(before.ids().insert(id, url).contains_key(i));
    }
    assert forall|u: Seq<char>| #[trigger] after.urls().contains_key(u) implies db.contains_key(
        after.urls()[u],
    ) && db[after.urls()[u]] == u by {
        assert(before.urls().insert(url, id).contains_key(u));
    }
}

/// A cache in agreement with a one-to-one store answers a lookup in either
/// direction exactly as the store would.
pub proof fn law_hit_matches_store(s: CachableStorage, db: Map<i64, Seq<char>>, id: i64, url: Seq<char>)
    requires
        s.agrees_with(db),
        is_bijection(db),
        db.contains_key(id),
        db[id] == url,
    ensures
        s.ids().contains_key(id) ==> s.ids()[id] == url,
        s.urls().contains_key(url) ==> s.urls()[url] == id,
{
    if s.urls().contains_key(url) {
        let j = s.urls()[url];
        assert(db.contains_key(j) && db[j] == url);
    }
}

} // verus!
