//! Content-addressed identity URNs: a multihash behind a fixed scheme
//! prefix, in base58 text.

use vstd::prelude::*;

use crate::bytes::copy_bytes;
use crate::codec::{
    b58_decode, b58_decode_bytes, b58_encode, b58_encoded, mh_parses, multihash_parses,
};

verus! {

/// The scheme prefix of an identity URN, as bytes: `rad:`.
pub open spec fn uri_prefix() -> Seq<u8> {
    seq![114u8, 97u8, 100u8, 58u8]
}

/// The text of the URN holding `hash`.
pub open spec fn uri_string_of(hash: Seq<u8>) -> Seq<u8> {
    uri_prefix() + b58_encoded(hash)
}

/// The multihash a URN text carries: the text must start with the scheme
/// prefix, the rest must be base58, and the decoded bytes must form a
/// multihash container.
pub open spec fn uri_parse(s: Seq<u8>) -> Option<Seq<u8>> {
    if s.len() >= 4 && s.take(4) == uri_prefix() {
        match b58_decode(s.skip(4)) {
            Some(h) => if mh_parses(h) {
                Some(h)
            } else {
                None
            },
            None => None,
        }
    } else {
        None
    }
}

/// A content-addressed identity URN: the multihash bytes of the identity's
/// initial revision.
#[derive(Debug)]
pub struct RadicleUri {
    pub hash: Vec<u8>,
}

impl View for RadicleUri {
    type V = Seq<u8>;

    open spec fn view(&self) -> Seq<u8> {
        self.hash@
    }
}

impl RadicleUri {
    pub fn new(hash: Vec<u8>) -> (r: Self)
        ensures
            r@ == hash@,
    {
        RadicleUri { hash }
    }

    pub fn clone_uri(&self) -> (r: Self)
        ensures
            r@ == self@,
    {
        RadicleUri { hash: copy_bytes(&self.hash) }
    }

    /// The URN text: the scheme prefix, then the hash in base58.
    pub fn to_string_bytes(&self) -> (r: Vec<u8>)
        ensures
            r@ == uri_string_of(self@),
            b58_decode(b58_encoded(self@)) == Some(self@),
    {
        let mut out: Vec<u8> = Vec::new();
        out.push(114);
        out.push(97);
        out.push(100);
        out.push(58);
        let ghost head = out@;
        let mut tail = b58_encode(&self.hash);
        let ghost tv = tail@;
        out.append(&mut tail);
        proof {
            assert(head =~= uri_prefix());
            assert(out@ =~= uri_prefix() + tv);
        }
        out
    }

    /// Parses a URN text; `None` exactly when the prefix, the base58 text or
    /// the multihash inside is not well formed.
    pub fn from_str_bytes(s: &Vec<u8>) -> (r: Option<RadicleUri>)
        ensures
            match r {
                Some(u) => uri_parse(s@) == Some(u@) && mh_parses(u@) && uri_string_of(u@) == s@
                    && b58_decode(b58_encoded(u@)) == Some(u@),
                None => uri_parse(s@) is None,
            },
    {
        if s.len() < 4 {
            return None;
        }
        if !(s[0] == 114 && s[1] == 97 && s[2] == 100 && s[3] == 58) {
            proof {
                if s@.take(4) == uri_prefix() {
                    assert(s@.take(4)[0] == 114u8 && s@.take(4)[1] == 97u8 && s@.take(4)[2]
                        == 100u8 && s@.take(4)[3] == 58u8);
                }
            }
            return None;
        }
        proof {
            assert(s@.take(4) =~= uri_prefix());
        }
        let mut rest: Vec<u8> = Vec::new();
        let mut i: usize = 4;
        while i < s.len()
            invariant
                4 <= i <= s.len(),
                rest@ == s@.subrange(4, i as int),
            decreases s.len() - i,
        {
            rest.push(s[i]);
            proof {
                assert(s@.subrange(4, i + 1 as int) =~= s@.subrange(4, i as int).push(
                    s@[i as int],
                ));
            }
            i = i + 1;
        }
        proof {
            assert(rest@ =~= s@.skip(4));
        }
        match b58_decode_bytes(&rest) {
            None => None,
            Some(h) => {
                if multihash_parses(&h) {
                    proof {
                        assert(s@ =~= s@.take(4) + s@.skip(4));
                        assert(uri_string_of(h@) == s@);
                    }
                    Some(RadicleUri { hash: h })
                } else {
                    None
                }
            },
        }
    }
}

} // verus!
