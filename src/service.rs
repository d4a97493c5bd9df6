//! The operations offered to callers: shorten a URL, resolve a short code.
//!
//! The durable store is driven by the caller. Each operation is split into
//! steps: a step either answers, or names the store request to make, and the
//! caller hands the store's answer to the next step.
use vstd::prelude::*;

use crate::cache::{is_bijection, law_hit_matches_store, law_write_keeps_agreement, CachableStorage};
use crate::codec::{base62_of, decode, decode_spec, encode, lemma_base62_of};
use crate::normalize::{https_prefix, normalize, normalize_spec};
use crate::{SeqId, Url};

verus! {

/// Where a shorten stands after a step.
#[derive(Debug)]
pub enum Shorten {
    /// The URL is malformed or not allowed.
    Rejected,
    /// The short code of the URL.
    Code(String),
    /// Ask the store for the identifier of this normalized URL.
    LookUp(Url),
    /// Insert this normalized URL into the store.
    Insert(Url),
    /// The store answered with an identifier that no row can have.
    Fault,
}

/// Where a resolve stands after a step.
#[derive(Debug)]
pub enum Resolve {
    /// The code is not a valid short code.
    Invalid,
    /// No URL is stored under the code.
    NotFound,
    /// Redirect to this address.
    Redirect(String),
    /// Ask the store for the URL stored under this identifier.
    LookUp(SeqId),
}

/// The address a stored URL redirects to: stored URLs carry no scheme, and
/// are always served over https.
pub open spec fn redirect_of(url: Seq<char>) -> Seq<char> {
    https_prefix() + url
}

pub struct Service {
    storage: CachableStorage,
}

impl Service {
    pub closed spec fn cache(&self) -> CachableStorage {
        self.storage
    }

    pub open spec fn wf(&self) -> bool {
        self.cache().wf()
    }

    pub fn new() -> (r: Service)
        ensures
            r.wf(),
            r.cache().ids() == Map::<i64, Seq<char>>::empty(),
            r.cache().urls() == Map::<Seq<char>, i64>::empty(),
    {
        Service { storage: CachableStorage::new() }
    }

    /// Rewrites `url` into its canonical form; answers false, leaving `url`
    /// as it was, when the URL is refused.
    pub fn normalize_and_validate_url(url: &mut Url) -> (r: bool)
        ensures
            r == normalize_spec(old(url)@) is Some,
            r ==> final(url)@ == normalize_spec(old(url)@)->0,
            !r ==> final(url)@ == old(url)@,
    {
        match normalize(url.0.as_str()) {
            Some(s) => {
                url.0 = s;
                true
            },
            None => false,
        }
    }

    /// First step of a shorten: normalize, then ask the cache.
    pub fn process_post(&mut self, url: Url) -> (r: Shorten)
        requires
            old(self).wf(),
        ensures
            final(self).wf(),
            normalize_spec(url@) is None ==> r is Rejected && final(self).cache() == old(
                self,
            ).cache(),
            normalize_spec(url@) matches Some(n) ==> {
                &&& old(self).cache().urls().contains_key(n) ==> (r matches Shorten::Code(c)
                    && c@ == base62_of(old(self).cache().urls()[n] as nat))
                &&& !old(self).cache().urls().contains_key(n) ==> (r matches Shorten::LookUp(u)
                    && u@ == n)
            },
            final(self).cache().urls().submap_of(old(self).cache().urls()),
            final(self).cache().ids() == old(self).cache().ids(),
            final(self).cache().offered() == old(self).cache().offered(),
    {
        let mut url = url;
        if !Self::normalize_and_validate_url(&mut url) {
            return Shorten::Rejected;
        }
        match self.storage.get_key_by_value(&url) {
            Some(id) => Shorten::Code(encode(id)),
            None => Shorten::LookUp(url),
        }
    }

    /// Takes the store's answer to a lookup by URL: a found identifier is
    /// cached and gives the code; an absent URL is to be inserted.
    pub fn post_looked_up(&mut self, url: Url, stored: Option<SeqId>) -> (r: Shorten)
        requires
            old(self).wf(),
        ensures
            final(self).wf(),
            stored is None ==> (r matches Shorten::Insert(u) && u@ == url@) && *final(self)
                == *old(self),
            stored matches Some(id) ==> {
                &&& id.0 < 0 ==> r is Fault && *final(self) == *old(self)
                &&& id.0 >= 0 ==> (r matches Shorten::Code(c) && c@ == base62_of(id.0 as nat))
                &&& id.0 >= 0 ==> final(self).cache().offered() == old(
                    self,
                ).cache().offered().insert((id.0, url@))
                &&& id.0 >= 0 ==> final(self).cache().ids().submap_of(
                    old(self).cache().ids().insert(id.0, url@),
                )
                &&& id.0 >= 0 ==> final(self).cache().urls().submap_of(
                    old(self).cache().urls().insert(url@, id.0),
                )
            },
    {
        match stored {
            None => Shorten::Insert(url),
            Some(id) => {
                if id.0 < 0 {
                    return Shorten::Fault;
                }
                self.storage.insert(url, id);
                Shorten::Code(encode(id))
            },
        }
    }

    /// Takes the store's answer to an insert: the identifier it assigned, or
    /// none when the URL was already there, in which case the stored
    /// identifier is to be looked up.
    pub fn post_inserted(&mut self, url: Url, assigned: Option<SeqId>) -> (r: Shorten)
        requires
            old(self).wf(),
        ensures
            final(self).wf(),
            assigned is None ==> (r matches Shorten::LookUp(u) && u@ == url@) && *final(self)
                == *old(self),
            assigned matches Some(id) ==> {
                &&& id.0 < 0 ==> r is Fault && *final(self) == *old(self)
                &&& id.0 >= 0 ==> (r matches Shorten::Code(c) && c@ == base62_of(id.0 as nat))
                &&& id.0 >= 0 ==> final(self).cache().offered() == old(
                    self,
                ).cache().offered().insert((id.0, url@))
                &&& id.0 >= 0 ==> final(self).cache().ids().submap_of(
                    old(self).cache().ids().insert(id.0, url@),
                )
                &&& id.0 >= 0 ==> final(self).cache().urls().submap_of(
                    old(self).cache().urls().insert(url@, id.0),
                )
            },
    {
        match assigned {
            None => Shorten::LookUp(url),
            Some(id) => {
                if id.0 < 0 {
                    return Shorten::Fault;
                }
                self.storage.insert(url, id);
                Shorten::Code(encode(id))
            },
        }
    }

    /// First step of a resolve: decode, then ask the cache.
    pub fn process_get(&mut self, id: &str) -> (r: Resolve)
        requires
            old(self).wf(),
        ensures
            final(self).wf(),
            decode_spec(id@) is None ==> r is Invalid && *final(self) == *old(self),
            decode_spec(id@) matches Some(n) ==> {
                &&& old(self).cache().ids().contains_key(n as i64) ==> (r matches Resolve::Redirect(
                    a,
                ) && a@ == redirect_of(old(self).cache().ids()[n as i64]))
                &&& !old(self).cache().ids().contains_key(n as i64) ==> r == Resolve::LookUp(
                    SeqId(n as i64),
                )
            },
            final(self).cache().ids().submap_of(old(self).cache().ids()),
            final(self).cache().urls() == old(self).cache().urls(),
            final(self).cache().offered() == old(self).cache().offered(),
    {
        let numerical_id = match decode(id) {
            Ok(n) => n,
            Err(_) => {
                return Resolve::Invalid;
            },
        };
        match self.storage.get(numerical_id) {
            Some(url) => Resolve::Redirect(redirect(&url)),
            None => Resolve::LookUp(numerical_id),
        }
    }

    /// Takes the store's answer to a lookup by identifier: a found URL is
    /// cached and redirected to; an absence is not cached.
    pub fn get_looked_up(&mut self, id: SeqId, stored: Option<Url>) -> (r: Resolve)
        requires
            old(self).wf(),
        ensures
            final(self).wf(),
            stored is None || id.0 < 0 ==> r is NotFound && *final(self) == *old(self),
            id.0 >= 0 && stored is Some ==> {
                &&& r matches Resolve::Redirect(a) && a@ == redirect_of(stored->0@)
                &&& final(self).cache().offered() == old(self).cache().offered().insert(
                    (id.0, stored->0@),
                )
                &&& final(self).cache().ids().submap_of(
                    old(self).cache().ids().insert(id.0, stored->0@),
                )
                &&& final(self).cache().urls().submap_of(
                    old(self).cache().urls().insert(stored->0@, id.0),
                )
            },
    {
        if id.0 < 0 {
            return Resolve::NotFound;
        }
        match self.storage.get_from_store(id, stored) {
            Some(url) => Resolve::Redirect(redirect(&url)),
            None => Resolve::NotFound,
        }
    }
}

fn redirect(url: &Url) -> (r: String)
    ensures
        r@ == redirect_of(url@),
{
    let mut s = String::from_str("https://");
    proof {
        reveal_strlit("https://");
    }
    assert(s@ =~= https_prefix());
    s.append(url.0.as_str());
    s
}

/// Shortening a URL twice gives the same code. With the cache in agreement
/// with a one-to-one store that holds `n` under `id`, a cache hit for `n`
/// gives the code of `id`, as the store's answer does; and writing the pair
/// `(id, n)`, as the first shorten does, keeps the agreement for the second.
pub proof fn law_shorten_idempotent(
    first: CachableStorage,
    second: CachableStorage,
    db: Map<i64, Seq<char>>,
    id: i64,
    n: Seq<char>,
)
    requires
        first.agrees_with(db),
        is_bijection(db),
        db.contains_key(id),
        db[id] == n,
        second.ids().submap_of(first.ids().insert(id, n)),
        second.urls().submap_of(first.urls().insert(n, id)),
    ensures
        second.agrees_with(db),
        first.urls().contains_key(n) ==> base62_of(first.urls()[n] as nat) == base62_of(
            id as nat,
        ),
        second.urls().contains_key(n) ==> base62_of(second.urls()[n] as nat) == base62_of(
            id as nat,
        ),
{
    law_hit_matches_store(first, db, id, n);
    law_write_keeps_agreement(first, second, db, id, n);
    law_hit_matches_store(second, db, id, n);
}

/// Resolving the code of a shortened URL gives its normalized form back: the
/// code of a stored identifier decodes to that identifier, and a cache in
/// agreement with a one-to-one store answers the stored URL for it.
pub proof fn law_resolve_after_shorten(
    s: CachableStorage,
    db: Map<i64, Seq<char>>,
    raw: Seq<char>,
    id: i64,
)
    requires
        s.agrees_with(db),
        is_bijection(db),
        id >= 0,
        normalize_spec(raw) is Some,
        db.contains_key(id),
        db[id] == normalize_spec(raw)->0,
    ensures
        decode_spec(base62_of(id as nat)) == Some(id as int),
        s.ids().contains_key(id) ==> s.ids()[id] == normalize_spec(raw)->0,
{
    lemma_base62_of(id as nat);
    law_hit_matches_store(s, db, id, normalize_spec(raw)->0);
}

} // verus!
