//! Identity URNs as reference namespaces: a namespace is a URN with its
//! path stripped.

use vstd::prelude::*;

use crate::bytes::copy_bytes;

verus! {

/// A content-addressed URN: the identity's multihash, with an optional
/// path that namespaces reference lookups.
#[derive(Debug)]
pub struct Urn {
    pub id: Vec<u8>,
    pub path: Option<Vec<u8>>,
}

/// Mathematical model of a [`Urn`].
pub struct UrnV {
    pub id: Seq<u8>,
    pub path: Option<Seq<u8>>,
}

impl View for Urn {
    type V = UrnV;

    open spec fn view(&self) -> UrnV {
        UrnV {
            id: self.id@,
            path: match &self.path {
                Some(p) => Some(p@),
                None => None,
            },
        }
    }
}

impl Urn {
    pub fn new(id: Vec<u8>) -> (r: Urn)
        ensures
            r@.id == id@,
            r@.path is None,
    {
        Urn { id, path: None }
    }

    pub fn clone_urn(&self) -> (r: Urn)
        ensures
            r@ == self@,
    {
        Urn {
            id: copy_bytes(&self.id),
            path: match &self.path {
                Some(p) => Some(copy_bytes(p)),
                None => None,
            },
        }
    }
}

/// A reference namespace: the identity part of a URN, its path stripped.
#[derive(Debug)]
pub struct Namespace {
    pub id: Vec<u8>,
}

impl View for Namespace {
    type V = Seq<u8>;

    open spec fn view(&self) -> Seq<u8> {
        self.id@
    }
}

impl Namespace {
    /// The URN the namespace stands for; its path is always stripped.
    pub fn to_urn(&self) -> (r: Urn)
        ensures
            r@.id == self@,
            r@.path is None,
    {
        Urn { id: copy_bytes(&self.id), path: None }
    }
}

impl From<Urn> for Namespace {
    /// Strips the path from the URN: only the identity part names the
    /// namespace.
    fn from(urn: Urn) -> (r: Namespace) {
        Namespace { id: urn.id }
    }
}

impl vstd::std_specs::convert::FromSpecImpl<Urn> for Namespace {
    open spec fn obeys_from_spec() -> bool {
        true
    }

    open spec fn from_spec(urn: Urn) -> Namespace {
        Namespace { id: urn.id }
    }
}

impl From<Namespace> for Urn {
    /// The stripped URN back out of the namespace.
    fn from(ns: Namespace) -> (r: Urn) {
        Urn { id: ns.id, path: None }
    }
}

impl vstd::std_specs::convert::FromSpecImpl<Namespace> for Urn {
    open spec fn obeys_from_spec() -> bool {
        true
    }

    open spec fn from_spec(ns: Namespace) -> Urn {
        Urn { id: ns.id, path: None }
    }
}

} // verus!
