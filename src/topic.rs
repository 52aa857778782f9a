//! Content topics: the names that tell broadcasts from requests on the
//! shared transport.
use vstd::prelude::*;

verus! {

/// How a topic's payloads are encoded.
#[derive(Clone, Debug)]
pub enum Encoding {
    Proto,
    Rlp,
    Rfc26,
    Unknown(String),
}

/// A content topic `/{application}/{version}/{name}/{encoding}`.
#[derive(Clone, Debug)]
pub struct ContentTopic {
    pub application: String,
    pub version: usize,
    pub name: String,
    pub encoding: Encoding,
}

/// Name of the application, the first part of both topics.
pub const APPLICATION_NAME: &'static str = "dailystoic";
/// Version of the wire schema, the second part of both topics.
pub const PROTOCOL_VERSION: usize = 1;
/// Name of the topic that carries quotes.
pub const BROADCAST_NAME: &'static str = "broadcast";
/// Name of the topic that carries requests.
pub const REQUEST_NAME: &'static str = "request";

pub open spec fn same_encoding(a: Encoding, b: Encoding) -> bool {
    match (a, b) {
        (Encoding::Proto, Encoding::Proto) => true,
        (Encoding::Rlp, Encoding::Rlp) => true,
        (Encoding::Rfc26, Encoding::Rfc26) => true,
        (Encoding::Unknown(x), Encoding::Unknown(y)) => x@ == y@,
        _ => false,
    }
}

impl Encoding {
    pub fn same_as(&self, other: &Encoding) -> (r: bool)
        ensures
            r == same_encoding(*self, *other),
    {
        match self {
            Encoding::Proto => matches!(other, Encoding::Proto),
            Encoding::Rlp => matches!(other, Encoding::Rlp),
            Encoding::Rfc26 => matches!(other, Encoding::Rfc26),
            Encoding::Unknown(x) => match other {
                Encoding::Unknown(y) => x.eq(y),
                _ => false,
            },
        }
    }
}

impl ContentTopic {
    /// Two topics are the same when all four parts are.
    pub open spec fn same_spec(self, other: ContentTopic) -> bool {
        self.application@ == other.application@ && self.version == other.version && self.name@
            == other.name@ && same_encoding(self.encoding, other.encoding)
    }

    pub open spec fn is_named(self, name: Seq<char>) -> bool {
        self.application@ == APPLICATION_NAME@ && self.version == PROTOCOL_VERSION && self.name@
            == name && self.encoding is Proto
    }

    pub fn same_as(&self, other: &ContentTopic) -> (r: bool)
        ensures
            r == self.same_spec(*other),
    {
        self.application == other.application && self.version == other.version && self.name
            == other.name && self.encoding.same_as(&other.encoding)
    }

    /// The topic that quotes are published on.
    pub fn broadcast() -> (r: ContentTopic)
        ensures
            r.is_named(BROADCAST_NAME@),
    {
        ContentTopic {
            application: APPLICATION_NAME.to_owned(),
            version: PROTOCOL_VERSION,
            name: BROADCAST_NAME.to_owned(),
            encoding: Encoding::Proto,
        }
    }

    /// The topic that requests arrive on.
    pub fn request() -> (r: ContentTopic)
        ensures
            r.is_named(REQUEST_NAME@),
    {
        ContentTopic {
            application: APPLICATION_NAME.to_owned(),
            version: PROTOCOL_VERSION,
            name: REQUEST_NAME.to_owned(),
            encoding: Encoding::Proto,
        }
    }
}

} // verus!
