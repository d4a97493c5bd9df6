//! A URL shortener's core: URL normalization, the base-62 short-code codec,
//! and the two-way cache that stands in front of the durable store.
use vstd::prelude::*;

pub mod cache;
pub mod codec;
pub mod normalize;
pub mod service;

pub use service::Service;

verus! {

/// The identifier the store assigns to a URL when it is first inserted.
#[derive(Clone, Copy, PartialEq, Eq, Hash, Debug, Structural)]
pub struct SeqId(pub i64);

/// A URL as text; once normalized, the scheme-less canonical form.
#[derive(Clone, Debug)]
pub struct Url(pub String);

impl Url {
    pub open spec fn view(&self) -> Seq<char> {
        self.0@
    }
}

impl From<i64> for SeqId {
    fn from(value: i64) -> (r: SeqId)
        ensures
            r.0 == value,
    {
        SeqId(value)
    }
}

impl vstd::std_specs::convert::FromSpecImpl<i64> for SeqId {
    open spec fn obeys_from_spec() -> bool {
        true
    }

    open spec fn from_spec(v: i64) -> SeqId {
        SeqId(v)
    }
}

impl From<&str> for Url {
    fn from(value: &str) -> (r: Url)
        ensures
            r@ == value@,
    {
        broadcast use vstd::string::group_string_axioms;

        Url(value.to_string())
    }
}

impl vstd::std_specs::convert::FromSpecImpl<&str> for Url {
    open spec fn obeys_from_spec() -> bool {
        false
    }

    open spec fn from_spec(v: &str) -> Url {
        vstd::pervasive::arbitrary()
    }
}

impl From<String> for Url {
    fn from(value: String) -> (r: Url)
        ensures
            r@ == value@,
    {
        Url(value)
    }
}

impl vstd::std_specs::convert::FromSpecImpl<String> for Url {
    open spec fn obeys_from_spec() -> bool {
        true
    }

    open spec fn from_spec(v: String) -> Url {
        Url(v)
    }
}

impl From<Url> for String {
    fn from(value: Url) -> (r: String)
        ensures
            r@ == value@,
    {
        value.0
    }
}

impl vstd::std_specs::convert::FromSpecImpl<Url> for String {
    open spec fn obeys_from_spec() -> bool {
        true
    }

    open spec fn from_spec(v: Url) -> String {
        v.0
    }
}

} // verus!
